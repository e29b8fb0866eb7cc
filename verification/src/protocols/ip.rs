//! Ports, and the allocator of the ephemeral ones.

use crate::fail::Fail;
use uniset::BitSet;
use vstd::prelude::*;

verus! {

/// Where the private ports begin, unless the allocator is told otherwise.
pub const FIRST_PRIVATE_PORT: u16 = 49152;

/// The port behind the last one that the allocator hands out.
pub const END_OF_PORTS: u16 = 65535;

/// A port number: any 16-bit number but zero.
#[derive(Clone, Copy, Debug, PartialEq, Eq, Structural, Hash)]
pub struct Port {
    number: u16,
}

impl View for Port {
    type V = u16;

    closed spec fn view(&self) -> u16 {
        self.number
    }
}

impl Port {
    #[verifier::type_invariant]
    spec fn inv(self) -> bool {
        self.number != 0
    }

    /// The port with the number `n`.
    pub closed spec fn spec_from(n: u16) -> Port {
        Port { number: n }
    }

    /// The port with the number `n` has the number `n`, and every port is
    /// the port with its number.
    pub proof fn lemma_spec_from(n: u16)
        ensures
            Self::spec_from(n)@ == n,
            forall|p: Port| p@ == n ==> p == Self::spec_from(n),
    {
    }

    /// The port with the number `n`. There is no port zero.
    pub fn try_from(n: u16) -> (port: Result<Port, Fail>)
        ensures
            n != 0 ==> (port matches Ok(p) && p@ == n),
            n == 0 ==> port == Err::<Port, Fail>(
                Fail::OutOfRange { details: "port number may not be zero" },
            ),
    {
        if n == 0 {
            Err(Fail::OutOfRange { details: "port number may not be zero" })
        } else {
            Ok(Port { number: n })
        }
    }

    /// The number of the port.
    pub fn value(self) -> (n: u16)
        ensures
            n == self@,
            n != 0,
    {
        proof {
            use_type_invariant(&self);
        }
        self.number
    }

    pub fn first_private_port() -> (port: Port)
        ensures
            port@ == FIRST_PRIVATE_PORT,
    {
        Port { number: FIRST_PRIVATE_PORT }
    }

    pub fn is_private(self) -> (private: bool)
        ensures
            private == (self@ >= FIRST_PRIVATE_PORT),
    {
        self.number >= FIRST_PRIVATE_PORT
    }
}

/// Ports with the same number are the same port.
pub proof fn lemma_port_is_its_number(a: Port, b: Port)
    requires
        a@ == b@,
    ensures
        a == b,
{
}

/// The bit set of uniset, which the verifier carries through unopened.
#[verifier::external_type_specification]
#[verifier::external_body]
pub struct ExBitSet(BitSet);

/// What the bit set holds: the positions at which `BitSet::test` finds a
/// bit set.
pub uninterp spec fn bit_set_members(bits: BitSet) -> Set<usize>;

/// `BitSet::with_capacity` of uniset: a set with room for `capacity` bits
/// and no bit set. No more room is asked for than there are port numbers.
#[verifier::external_body]
fn bit_set_with_capacity(capacity: usize) -> (bits: BitSet)
    requires
        capacity <= u16::MAX,
    ensures
        bit_set_members(bits) == Set::<usize>::empty(),
{
    BitSet::with_capacity(capacity)
}

/// `BitSet::set` of uniset: the bit at `position` is set, growing the set
/// where it must; the other bits stay. Growth to a position that no port
/// number reaches may overflow or run out of memory, so `requires` leaves
/// such positions out.
#[verifier::external_body]
fn bit_set_set(bits: &mut BitSet, position: usize)
    requires
        position <= u16::MAX,
    ensures
        bit_set_members(*final(bits)) == bit_set_members(*old(bits)).insert(position),
{
    bits.set(position)
}

/// `BitSet::clear` of uniset: `test` finds the bit at `position` cleared
/// afterwards, and the other bits as before. (The summaries that
/// `BitSet::iter` goes by are cleared along with the bit, whatever else they
/// stand for: the contract says nothing of iteration, and the allocator
/// does not iterate.)
#[verifier::external_body]
fn bit_set_clear(bits: &mut BitSet, position: usize)
    ensures
        bit_set_members(*final(bits)) == bit_set_members(*old(bits)).remove(position),
{
    bits.clear(position)
}

/// `BitSet::test` of uniset: whether the bit at `position` is set.
#[verifier::external_body]
fn bit_set_test(bits: &BitSet, position: usize) -> (set: bool)
    ensures
        set == bit_set_members(*bits).contains(position),
{
    bits.test(position)
}

/// The ephemeral ports as plain values: where they begin, and which of them
/// are free.
pub struct PortsView {
    pub first_port: u16,
    pub free: Set<u16>,
}

impl PortsView {
    /// Whether `port` belongs to the range that the allocator manages.
    pub open spec fn in_range(self, port: u16) -> bool {
        self.first_port <= port < END_OF_PORTS
    }

    /// Only ports of the range are free.
    pub open spec fn wf(self) -> bool {
        forall|port: u16| #[trigger] self.free.contains(port) ==> self.in_range(port)
    }

    /// Whether `port` is handed out: it belongs to the range and is not
    /// free.
    pub open spec fn outstanding(self, port: u16) -> bool {
        self.in_range(port) && !self.free.contains(port)
    }

    /// Whether `port` is the lowest free port.
    pub open spec fn is_lowest_free(self, port: u16) -> bool {
        self.free.contains(port) && forall|other: u16|
            #[trigger] self.free.contains(other) ==> port <= other
    }

    /// The lowest free port, where a port is free.
    pub open spec fn lowest_free(self) -> u16 {
        choose|port: u16| self.is_lowest_free(port)
    }

    /// The lowest free port is the only one that is the lowest.
    pub proof fn lemma_lowest_free_is_unique(self, port: u16)
        requires
            self.is_lowest_free(port),
        ensures
            self.lowest_free() == port,
    {
        let chosen = self.lowest_free();
        assert(self.is_lowest_free(chosen));
    }

    /// The ports after `port` was handed out.
    pub open spec fn without(self, port: u16) -> PortsView {
        PortsView { free: self.free.remove(port), ..self }
    }

    /// The ports after `port` came back. A port outside the range is not
    /// taken in.
    pub open spec fn with(self, port: u16) -> PortsView {
        if self.in_range(port) {
            PortsView { free: self.free.insert(port), ..self }
        } else {
            self
        }
    }
}

/// The allocator of ephemeral ports: a bit for every port of the range
/// `[first_port, 65535)`, set while the port is free.
pub struct EphemeralPorts {
    first_port: u16,
    bits: BitSet,
    /// No port before this place in the range is free.
    next: u16,
}

impl View for EphemeralPorts {
    type V = PortsView;

    closed spec fn view(&self) -> PortsView {
        PortsView {
            first_port: self.first_port,
            free: Set::new(
                |port: u16|
                    self.first_port <= port && bit_set_members(self.bits).contains(
                        (port - self.first_port) as usize,
                    ),
            ),
        }
    }
}

impl EphemeralPorts {
    /// Whether the allocator keeps its invariant.
    pub closed spec fn wf(&self) -> bool {
        &&& self.first_port != 0
        &&& self.next <= END_OF_PORTS - self.first_port
        &&& forall|position: usize|
            bit_set_members(self.bits).contains(position) ==> self.next <= position
                < END_OF_PORTS - self.first_port
    }

    /// An allocator of the ports from `FIRST_PRIVATE_PORT` on, all free.
    pub fn new() -> (ports: EphemeralPorts)
        ensures
            ports.wf(),
            ports@.wf(),
            ports@.first_port == FIRST_PRIVATE_PORT,
            forall|port: u16| ports@.free.contains(port) <==> ports@.in_range(port),
    {
        EphemeralPorts::with_first_port(Port::first_private_port())
    }

    /// An allocator of the ports from `first_port` on, all free.
    pub fn with_first_port(first_port: Port) -> (ports: EphemeralPorts)
        ensures
            ports.wf(),
            ports@.wf(),
            ports@.first_port == first_port@,
            forall|port: u16| ports@.free.contains(port) <==> ports@.in_range(port),
    {
        let first_port = first_port.value();
        let num_ephemeral: u16 = 65535 - first_port;
        let mut bits = bit_set_with_capacity(num_ephemeral as usize);
        let mut i: u16 = 0;
        while i < num_ephemeral
            invariant
                i <= num_ephemeral,
                num_ephemeral == 65535 - first_port,
                forall|position: usize|
                    bit_set_members(bits).contains(position) <==> position < i,
            decreases num_ephemeral - i,
        {
            bit_set_set(&mut bits, i as usize);
            i = i + 1;
        }
        let ports = EphemeralPorts { bits, first_port, next: 0 };
        assert forall|port: u16| ports@.free.contains(port) <==> ports@.in_range(port) by {
            if first_port <= port {
                let position = (port - first_port) as usize;
                assert(bit_set_members(bits).contains(position) <==> position < num_ephemeral);
            }
        }
        ports
    }

    /// Hands out the lowest free port.
    pub fn alloc_port(&mut self) -> (port: Result<Port, Fail>)
        requires
            old(self).wf(),
        ensures
            final(self).wf(),
            final(self)@.wf(),
            match port {
                Ok(p) => {
                    &&& old(self)@.is_lowest_free(p@)
                    &&& old(self)@.in_range(p@)
                    &&& final(self)@ == old(self)@.without(p@)
                },
                Err(e) => {
                    &&& e == (Fail::ResourceExhausted { details: "Out of private ports" })
                    &&& old(self)@.free == Set::<u16>::empty()
                    &&& final(self)@ == old(self)@
                },
            },
    {
        let num_ephemeral: u16 = 65535 - self.first_port;
        let mut i: u16 = self.next;
        while i < num_ephemeral && !bit_set_test(&self.bits, i as usize)
            invariant
                *self == *old(self),
                self.wf(),
                num_ephemeral == END_OF_PORTS - self.first_port,
                self.next <= i <= num_ephemeral,
                forall|position: usize|
                    bit_set_members(self.bits).contains(position) ==> i <= position,
            decreases num_ephemeral - i,
        {
            i = i + 1;
        }
        if i == num_ephemeral {
            proof {
                assert(old(self)@.free =~= Set::<u16>::empty());
            }
            return Err(Fail::ResourceExhausted { details: "Out of private ports" });
        }
        bit_set_clear(&mut self.bits, i as usize);
        self.next = i + 1;
        let number: u16 = self.first_port + i;
        proof {
            assert(old(self)@.free.contains(number));
            assert forall|other: u16| old(self)@.free.contains(other) implies number
                <= other by {
                assert(bit_set_members(old(self).bits).contains(
                    (other - self.first_port) as usize,
                ));
            }
            assert(self@.free =~= old(self)@.free.remove(number));
        }
        Ok(Port { number })
    }

    /// Takes `port` back, to be handed out again. A port that the allocator
    /// does not manage is not taken in.
    pub fn free(&mut self, port: Port)
        requires
            old(self).wf(),
        ensures
            final(self).wf(),
            final(self)@.wf(),
            final(self)@ == old(self)@.with(port@),
    {
        let number = port.value();
        if number >= self.first_port && number < END_OF_PORTS {
            let position: u16 = number - self.first_port;
            bit_set_set(&mut self.bits, position as usize);
            if position < self.next {
                self.next = position;
            }
            proof {
                assert(self@.free =~= old(self)@.free.insert(number));
            }
        }
    }
}

impl PortsView {
    /// A port that was handed out is not handed out again while it is
    /// outstanding: the next port is another one.
    pub proof fn lemma_no_double_allocation(self, first: u16, second: u16)
        requires
            self.is_lowest_free(first),
            self.without(first).is_lowest_free(second),
        ensures
            first != second,
            self.without(first).outstanding(first) || !self.in_range(first),
    {
    }

    /// A port that is handed out is never below the first port of the
    /// range, and was not outstanding.
    pub proof fn lemma_allocated_port_is_private(self, port: u16)
        requires
            self.wf(),
            self.is_lowest_free(port),
        ensures
            port >= self.first_port,
            port < END_OF_PORTS,
            !self.outstanding(port),
    {
    }

    /// A port that came back can be handed out again: it is free, and the
    /// next port handed out is that port or a lower one.
    pub proof fn lemma_freed_port_is_reusable(self, port: u16, next: u16)
        requires
            self.in_range(port),
            self.with(port).is_lowest_free(next),
        ensures
            self.with(port).free.contains(port),
            next <= port,
            !self.with(port).outstanding(port),
    {
    }

    /// Handing out ports ends: once every port of the range is outstanding,
    /// no port is free.
    pub proof fn lemma_exhausted_has_no_free_port(self)
        requires
            self.wf(),
            forall|port: u16| self.in_range(port) ==> #[trigger] self.outstanding(port),
        ensures
            self.free =~= Set::<u16>::empty(),
    {
        assert forall|port: u16| !self.free.contains(port) by {
            if self.free.contains(port) {
                assert(self.outstanding(port));
            }
        }
    }
}

} // verus!
