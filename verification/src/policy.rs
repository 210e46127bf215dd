//! From a configuration to the set of source addresses that it opens.

use crate::address::Address;
use crate::config::{listed, Config, Peer};
use vstd::prelude::*;

verus! {

/// `items` without repetitions: of each address the first occurrence stays,
/// in its place.
pub open spec fn distinct(items: Seq<Address>) -> Seq<Address>
    decreases items.len(),
{
    if items.len() == 0 {
        Seq::empty()
    } else {
        let before = distinct(items.drop_last());
        if before.contains(items.last()) {
            before
        } else {
            before.push(items.last())
        }
    }
}

/// `distinct` keeps every address, and each of them once.
pub proof fn lemma_distinct(items: Seq<Address>)
    ensures
        distinct(items).no_duplicates(),
        distinct(items).to_set() == items.to_set(),
    decreases items.len(),
{
    if items.len() == 0 {
        assert(distinct(items).to_set() =~= items.to_set());
    } else {
        let front = items.drop_last();
        let last = items.last();
        lemma_distinct(front);
        assert(items =~= front.push(last));
        assert forall|a: Address| items.to_set().contains(a) <==> (front.to_set().contains(a) || a
            == last) by {
            if front.contains(a) {
                let i = choose|i: int| 0 <= i < front.len() && front[i] == a;
                assert(items[i] == a);
            }
            if a == last {
                assert(items[items.len() - 1] == a);
            }
        }
        let before = distinct(front);
        assert(before.to_set() == front.to_set());
        if before.contains(last) {
            assert(distinct(items).to_set() =~= items.to_set());
        } else {
            let after = before.push(last);
            assert forall|a: Address| after.to_set().contains(a) <==> (before.to_set().contains(a)
                || a == last) by {
                if before.contains(a) {
                    let i = choose|i: int| 0 <= i < before.len() && before[i] == a;
                    assert(after[i] == a);
                }
                if a == last {
                    assert(after[after.len() - 1] == a);
                }
            }
            assert(distinct(items).to_set() =~= items.to_set());
        }
    }
}

/// The set of source addresses that a configuration opens.
///
/// It holds no address twice. Its addresses stand in a fixed order, that in
/// which they were first inserted; nothing but the order of the requests to
/// the packet filter depends on it.
#[derive(Debug)]
pub struct AllowedAddresses {
    items: Vec<Address>,
}

impl View for AllowedAddresses {
    type V = Set<Address>;

    open spec fn view(&self) -> Set<Address> {
        self.order().to_set()
    }
}

impl PartialEq for AllowedAddresses {
    /// Two sets are equal when they hold the same addresses, in whatever
    /// order.
    fn eq(&self, other: &AllowedAddresses) -> (same: bool) {
        proof {
            use_type_invariant(self);
            use_type_invariant(other);
            self.items@.unique_seq_to_set();
            other.items@.unique_seq_to_set();
            vstd::seq_lib::seq_to_set_is_finite(self.items@);
            vstd::seq_lib::seq_to_set_is_finite(other.items@);
        }
        if self.items.len() != other.items.len() {
            return false;
        }
        let mut i: usize = 0;
        while i < self.items.len()
            invariant
                i <= self.items@.len(),
                forall|j: int| 0 <= j < i ==> other@.contains(self.items@[j]),
            decreases self.items@.len() - i,
        {
            if !other.contains(self.items[i]) {
                assert(self@.contains(self.items@[i as int]));
                return false;
            }
            i = i + 1;
        }
        proof {
            assert(self@.subset_of(other@)) by {
                assert forall|a: Address| self@.contains(a) implies other@.contains(a) by {
                    let j = choose|j: int| 0 <= j < self.items@.len() && self.items@[j] == a;
                    assert(other@.contains(self.items@[j]));
                }
            }
            vstd::set_lib::lemma_subset_equality(self@, other@);
        }
        true
    }
}

impl vstd::std_specs::cmp::PartialEqSpecImpl for AllowedAddresses {
    open spec fn obeys_eq_spec() -> bool {
        true
    }

    open spec fn eq_spec(&self, other: &AllowedAddresses) -> bool {
        self@ == other@
    }
}

impl Eq for AllowedAddresses {

}

impl Clone for AllowedAddresses {
    fn clone(&self) -> (copy: AllowedAddresses)
        ensures
            copy.order() == self.order(),
    {
        proof {
            use_type_invariant(self);
        }
        let items = self.items.clone();
        assert(items@ =~= self.items@);
        AllowedAddresses { items }
    }
}

impl AllowedAddresses {
    #[verifier::type_invariant]
    spec fn no_address_twice(&self) -> bool {
        self.items@.no_duplicates()
    }

    /// The addresses of the set in their order.
    pub closed spec fn order(&self) -> Seq<Address> {
        self.items@
    }

    /// The empty set.
    pub fn new() -> (set: AllowedAddresses)
        ensures
            set.order() == Seq::<Address>::empty(),
            set@ == Set::<Address>::empty(),
    {
        let set = AllowedAddresses { items: Vec::new() };
        assert(set.order().to_set() =~= Set::<Address>::empty());
        set
    }

    /// How many addresses the set holds.
    pub fn len(&self) -> (n: usize)
        ensures
            n == self.order().len(),
            n == self@.len(),
            self.order().no_duplicates(),
    {
        proof {
            use_type_invariant(self);
            self.items@.unique_seq_to_set();
        }
        self.items.len()
    }

    /// Whether the set holds `address`.
    pub fn contains(&self, address: Address) -> (found: bool)
        ensures
            found == self@.contains(address),
    {
        let mut i: usize = 0;
        while i < self.items.len()
            invariant
                i <= self.items@.len(),
                forall|j: int| 0 <= j < i ==> self.items@[j] != address,
            decreases self.items@.len() - i,
        {
            if self.items[i] == address {
                return true;
            }
            i = i + 1;
        }
        false
    }

    /// Adds `address` unless the set holds it already, and says whether it
    /// was added.
    pub fn insert(&mut self, address: Address) -> (added: bool)
        ensures
            added == !old(self)@.contains(address),
            final(self).order() == if added {
                old(self).order().push(address)
            } else {
                old(self).order()
            },
            final(self)@ == old(self)@.insert(address),
            final(self).order().no_duplicates(),
    {
        proof {
            use_type_invariant(&*self);
        }
        if self.contains(address) {
            assert(self@ =~= old(self)@.insert(address));
            false
        } else {
            let mut items = Vec::new();
            std::mem::swap(&mut self.items, &mut items);
            items.push(address);
            self.items = items;
            assert forall|a: Address| self@.contains(a) <==> old(self)@.insert(address).contains(
                a,
            ) by {
                if old(self).order().contains(a) {
                    let i = choose|i: int| 0 <= i < old(self).order().len() && old(self).order()[i]
                        == a;
                    assert(self.order()[i] == a);
                }
                if a == address {
                    assert(self.order()[self.order().len() - 1] == a);
                }
            }
            assert(self@ =~= old(self)@.insert(address));
            true
        }
    }

    /// The addresses of the set in their order.
    pub fn to_vec(&self) -> (items: Vec<Address>)
        ensures
            items@ == self.order(),
            items@.no_duplicates(),
    {
        proof {
            use_type_invariant(self);
        }
        self.items.clone()
    }
}

/// What it is for `ips` to be the set of the addresses that `cfg` allows: it
/// holds the addresses that the peers list and no other, each once, in the
/// order in which the configuration first lists them.
pub open spec fn collects(cfg: &Config, ips: &AllowedAddresses) -> bool {
    &&& ips@ == cfg.addresses().to_set()
    &&& ips.order() == distinct(cfg.addresses())
    &&& ips.order().no_duplicates()
}

/// The set of all source addresses that the peers of `cfg` are allowed.
///
/// An address that several peers share, or that one peer lists twice, is in
/// the set once. No peers, or peers without addresses, give the empty set.
pub fn collect_ips(cfg: &Config) -> (ips: AllowedAddresses)
    ensures
        collects(cfg, &ips),
{
    let mut ips = AllowedAddresses::new();
    let mut i: usize = 0;
    while i < cfg.peers.len()
        invariant
            i <= cfg.peers@.len(),
            ips.order() == distinct(listed(cfg.peers@.take(i as int))),
        decreases cfg.peers@.len() - i,
    {
        let peer = &cfg.peers[i];
        let ghost before = listed(cfg.peers@.take(i as int));
        let mut j: usize = 0;
        while j < peer.allowed_ips.len()
            invariant
                j <= peer.allowed_ips@.len(),
                ips.order() == distinct(before + peer.allowed_ips@.take(j as int)),
            decreases peer.allowed_ips@.len() - j,
        {
            let ghost seen = before + peer.allowed_ips@.take(j as int);
            let address = peer.allowed_ips[j];
            proof {
                lemma_distinct(seen);
                assert(before + peer.allowed_ips@.take(j + 1) =~= seen.push(address));
                assert(seen.push(address).drop_last() =~= seen);
            }
            ips.insert(address);
            j = j + 1;
        }
        proof {
            assert(peer.allowed_ips@.take(j as int) =~= peer.allowed_ips@);
            assert(cfg.peers@.take(i + 1).drop_last() =~= cfg.peers@.take(i as int));
        }
        i = i + 1;
    }
    proof {
        assert(cfg.peers@.take(i as int) =~= cfg.peers@);
        lemma_distinct(cfg.addresses());
    }
    ips
}

/// Collecting is a function of the configuration: two results for one
/// configuration hold the same addresses, in the same order.
pub proof fn law_collect_again_gives_the_same(
    cfg: Config,
    first: AllowedAddresses,
    second: AllowedAddresses,
)
    requires
        collects(&cfg, &first),
        collects(&cfg, &second),
    ensures
        first@ == second@,
        first.order() == second.order(),
{
}

/// The set does not depend on how the configuration orders its peers or
/// their addresses, nor on how often it lists an address: configurations
/// that list the same addresses give the same set.
pub proof fn law_collect_ignores_order(
    one: Config,
    other: Config,
    first: AllowedAddresses,
    second: AllowedAddresses,
)
    requires
        collects(&one, &first),
        collects(&other, &second),
        one.addresses().to_set() == other.addresses().to_set(),
    ensures
        first@ == second@,
        first.order().len() == second.order().len(),
{
    first.order().unique_seq_to_set();
    second.order().unique_seq_to_set();
}

/// An address that the configuration lists, however often and for however
/// many peers, is in the set exactly once.
pub proof fn law_collect_holds_each_once(cfg: Config, ips: AllowedAddresses, address: Address)
    requires
        collects(&cfg, &ips),
        cfg.addresses().contains(address),
    ensures
        ips@.contains(address),
        exists|i: int| 0 <= i < ips.order().len() && ips.order()[i] == address,
        forall|i: int, j: int|
            0 <= i < ips.order().len() && 0 <= j < ips.order().len() && ips.order()[i] == address
                && ips.order()[j] == address ==> i == j,
{
    assert(cfg.addresses().to_set().contains(address));
    assert(ips.order().contains(address));
}

/// Peers without addresses list nothing.
pub proof fn lemma_listed_nothing(peers: Seq<Peer>)
    requires
        forall|i: int| 0 <= i < peers.len() ==> (#[trigger] peers[i]).allowed_ips@.len() == 0,
    ensures
        listed(peers) == Seq::<Address>::empty(),
    decreases peers.len(),
{
    if peers.len() > 0 {
        let front = peers.drop_last();
        assert forall|i: int| 0 <= i < front.len() implies (#[trigger] front[i]).allowed_ips@.len()
            == 0 by {
            assert(front[i] == peers[i]);
        }
        lemma_listed_nothing(front);
        assert(peers.last() == peers[peers.len() - 1]);
        assert(listed(peers) =~= Seq::<Address>::empty());
    }
}

/// A configuration without peers, or whose peers have no addresses, gives
/// the empty set.
pub proof fn law_collect_nothing_from_nothing(cfg: Config, ips: AllowedAddresses)
    requires
        collects(&cfg, &ips),
        forall|i: int|
            0 <= i < cfg.peers@.len() ==> (#[trigger] cfg.peers@[i]).allowed_ips@.len() == 0,
    ensures
        ips@ == Set::<Address>::empty(),
        ips.order() == Seq::<Address>::empty(),
{
    lemma_listed_nothing(cfg.peers@);
    assert(cfg.addresses().to_set() =~= Set::<Address>::empty());
}

} // verus!
