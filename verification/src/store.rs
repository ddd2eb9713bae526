//! The record store: one counter record per owner, held at the owner's
//! derived address.
//!
//! The store models the storage the host runtime keeps per address. Its
//! contents are abstracted as a map from derived addresses to record views;
//! every operation's contract is stated over that map. The namespace tag is
//! fixed at construction and never changes.

use vstd::prelude::*;
use crate::address::{derive_addr, derive_bump, derive_address, is_identity_capable};
use crate::error::CourseError;
use crate::pubkey::Pubkey;
use crate::state::counter::{
    Counter, CounterView, counter_increment_result, counter_increment_post,
};

verus! {

/// One occupied address: a record and the derived address it lives at.
struct Entry {
    addr: Pubkey,
    rec: Counter,
}

/// The store of counter records, keyed by derived address.
pub struct CounterStore {
    tag_bytes: Vec<u8>,
    entries: Vec<Entry>,
}

/// The map abstraction of a sequence of entries.
spec fn entries_map(s: Seq<Entry>) -> Map<Seq<u8>, CounterView>
    decreases s.len(),
{
    if s.len() == 0 {
        Map::empty()
    } else {
        entries_map(s.drop_last()).insert(s.last().addr@, s.last().rec@)
    }
}

/// No two entries share an address.
spec fn unique_addrs(s: Seq<Entry>) -> bool {
    forall|i: int, j: int| 0 <= i < j < s.len() ==> #[trigger] s[i].addr@ != #[trigger] s[j].addr@
}

/// A key is in the entry map exactly when some entry carries it.
proof fn lemma_entries_map_domain(s: Seq<Entry>, k: Seq<u8>)
    ensures
        entries_map(s).contains_key(k) <==> exists|i: int| 0 <= i < s.len() && #[trigger] s[i].addr@ == k,
    decreases s.len(),
{
    if s.len() > 0 {
        lemma_entries_map_domain(s.drop_last(), k);
        if s.last().addr@ == k {
            assert(s[s.len() - 1].addr@ == k);
        } else if entries_map(s).contains_key(k) {
            let i = choose|i: int| 0 <= i < s.drop_last().len() && #[trigger] s.drop_last()[i].addr@ == k;
            assert(s[i].addr@ == k);
        } else {
            assert forall|i: int| 0 <= i < s.len() implies #[trigger] s[i].addr@ != k by {
                if i < s.len() - 1 {
                    assert(s.drop_last()[i].addr@ == s[i].addr@);
                }
            }
        }
    }
}

/// Uniqueness of addresses carries over to any prefix.
proof fn lemma_unique_drop_last(s: Seq<Entry>)
    requires
        unique_addrs(s),
        s.len() > 0,
    ensures
        unique_addrs(s.drop_last()),
{
    assert forall|p: int, q: int|
        0 <= p < q < s.drop_last().len() implies #[trigger] s.drop_last()[p].addr@
        != #[trigger] s.drop_last()[q].addr@ by {
        assert(s.drop_last()[p] == s[p]);
        assert(s.drop_last()[q] == s[q]);
    }
}

/// With unique addresses, the map holds each entry's record at its address.
proof fn lemma_entries_map_index(s: Seq<Entry>, i: int)
    requires
        unique_addrs(s),
        0 <= i < s.len(),
    ensures
        entries_map(s).contains_key(s[i].addr@),
        entries_map(s)[s[i].addr@] == s[i].rec@,
    decreases s.len(),
{
    if i == s.len() - 1 {
        assert(s.last() == s[i]);
    } else {
        lemma_unique_drop_last(s);
        assert(s.drop_last()[i] == s[i]);
        lemma_entries_map_index(s.drop_last(), i);
        assert(s[i].addr@ != s.last().addr@);
    }
}

/// With unique addresses, replacing the entry at `i` by one with the same
/// address is, at the map level, an insert at that address.
proof fn lemma_entries_map_update(s: Seq<Entry>, i: int, e: Entry)
    requires
        unique_addrs(s),
        0 <= i < s.len(),
        e.addr@ == s[i].addr@,
    ensures
        entries_map(s.update(i, e)) == entries_map(s).insert(e.addr@, e.rec@),
    decreases s.len(),
{
    let s2 = s.update(i, e);
    if i == s.len() - 1 {
        assert(s2.drop_last() =~= s.drop_last());
        assert(s2.last() == e);
        assert(entries_map(s.drop_last()).insert(s.last().addr@, s.last().rec@).insert(
            e.addr@,
            e.rec@,
        ) =~= entries_map(s.drop_last()).insert(e.addr@, e.rec@));
    } else {
        lemma_unique_drop_last(s);
        assert(s2.drop_last() =~= s.drop_last().update(i, e));
        assert(s.drop_last()[i] == s[i]);
        lemma_entries_map_update(s.drop_last(), i, e);
        assert(s2.last() == s.last());
        assert(s.last().addr@ != e.addr@) by {
            assert(s[i].addr@ != s[s.len() - 1].addr@);
        }
        assert(entries_map(s.drop_last()).insert(e.addr@, e.rec@).insert(
            s.last().addr@,
            s.last().rec@,
        ) =~= entries_map(s.drop_last()).insert(s.last().addr@, s.last().rec@).insert(
            e.addr@,
            e.rec@,
        ));
    }
}

/// Whether the address derived for `owner` under `tag` is still free in `m`:
/// exactly the states in which create succeeds.
pub open spec fn create_ok(m: Map<Seq<u8>, CounterView>, tag: Seq<u8>, owner: Seq<u8>) -> bool {
    !m.contains_key(derive_addr(tag, owner))
}

/// The record a successful create installs: bound to `owner`, count zero,
/// carrying the seed its address was derived with.
pub open spec fn fresh_record(tag: Seq<u8>, owner: Seq<u8>) -> CounterView {
    CounterView { authority: owner, count: 0u64, bump: derive_bump(tag, owner) }
}

/// The store contents after a create request for `owner`.
pub open spec fn create_post(
    m: Map<Seq<u8>, CounterView>,
    tag: Seq<u8>,
    owner: Seq<u8>,
) -> Map<Seq<u8>, CounterView> {
    if create_ok(m, tag, owner) {
        m.insert(derive_addr(tag, owner), fresh_record(tag, owner))
    } else {
        m
    }
}

/// What an increment request against the record at `addr` returns.
pub open spec fn increment_result(
    m: Map<Seq<u8>, CounterView>,
    addr: Seq<u8>,
    req: Seq<u8>,
) -> Result<u64, CourseError> {
    counter_increment_result(m[addr], req)
}

/// The store contents after an increment request against `addr`: the one
/// record moves up by exactly one on success, and nothing changes on a
/// refused request.
pub open spec fn increment_post(
    m: Map<Seq<u8>, CounterView>,
    addr: Seq<u8>,
    req: Seq<u8>,
) -> Map<Seq<u8>, CounterView> {
    if counter_increment_result(m[addr], req) is Ok {
        m.insert(addr, counter_increment_post(m[addr], req))
    } else {
        m
    }
}

/// The store contents after `n` increment requests in a row against `addr`
/// by `req`.
pub open spec fn iter_increment(
    m: Map<Seq<u8>, CounterView>,
    addr: Seq<u8>,
    req: Seq<u8>,
    n: nat,
) -> Map<Seq<u8>, CounterView>
    decreases n,
{
    if n == 0 {
        m
    } else {
        increment_post(iter_increment(m, addr, req, (n - 1) as nat), addr, req)
    }
}

/// Create on a fresh address yields a record with count zero, bound to the
/// owner and carrying the derived seed.
pub proof fn lemma_create_then_read(m: Map<Seq<u8>, CounterView>, tag: Seq<u8>, owner: Seq<u8>)
    requires
        create_ok(m, tag, owner),
    ensures
        ({
            let a = derive_addr(tag, owner);
            let m2 = create_post(m, tag, owner);
            &&& m2.contains_key(a)
            &&& m2[a].count == 0
            &&& m2[a].authority == owner
            &&& m2[a].bump == derive_bump(tag, owner)
        }),
{
}

/// A second create for the same owner hits the same derived address, is
/// refused, and leaves the first record's fields standing.
pub proof fn lemma_create_twice(m: Map<Seq<u8>, CounterView>, tag: Seq<u8>, owner: Seq<u8>)
    requires
        create_ok(m, tag, owner),
    ensures
        ({
            let a = derive_addr(tag, owner);
            let m2 = create_post(m, tag, owner);
            &&& !create_ok(m2, tag, owner)
            &&& create_post(m2, tag, owner) == m2
            &&& m2[a] == fresh_record(tag, owner)
        }),
{
}

/// Repeated owner increments: `n` requests in a row all succeed while the
/// count stays representable, moving the count up by exactly `n`, leaving
/// the owner and seed unchanged, and touching no other record.
pub proof fn lemma_repeated_increment(
    m: Map<Seq<u8>, CounterView>,
    addr: Seq<u8>,
    req: Seq<u8>,
    n: nat,
)
    requires
        m.contains_key(addr),
        m[addr].authority == req,
        m[addr].count + n <= u64::MAX,
    ensures
        ({
            let m2 = iter_increment(m, addr, req, n);
            &&& m2.dom() == m.dom()
            &&& m2.contains_key(addr)
            &&& m2[addr].count == m[addr].count + n
            &&& m2[addr].authority == m[addr].authority
            &&& m2[addr].bump == m[addr].bump
            &&& forall|k: Seq<u8>| #![auto] m.contains_key(k) && k != addr ==> m2[k] == m[k]
            &&& n > 0 ==> increment_result(iter_increment(m, addr, req, (n - 1) as nat), addr, req)
                == Ok::<u64, CourseError>(m2[addr].count)
        }),
    decreases n,
{
    if n > 0 {
        lemma_repeated_increment(m, addr, req, (n - 1) as nat);
        let prev = iter_increment(m, addr, req, (n - 1) as nat);
        assert(prev[addr].count < u64::MAX);
        assert(iter_increment(m, addr, req, n).dom() =~= m.dom());
    }
}

/// The whole lifecycle at the model level: create for owner `a`, one owner
/// increment, a rejected foreign increment by `b`, owner increments up to
/// the representable maximum, and a final overflow rejection that changes
/// nothing.
pub proof fn lemma_lifecycle_scenario(
    m: Map<Seq<u8>, CounterView>,
    tag: Seq<u8>,
    a: Seq<u8>,
    b: Seq<u8>,
)
    requires
        create_ok(m, tag, a),
        a != b,
    ensures
        ({
            let addr = derive_addr(tag, a);
            let m1 = create_post(m, tag, a);
            let m2 = increment_post(m1, addr, a);
            let m3 = iter_increment(m2, addr, a, (u64::MAX - 1) as nat);
            &&& m1[addr].count == 0
            &&& increment_result(m1, addr, a) == Ok::<u64, CourseError>(1u64)
            &&& m2[addr].count == 1
            &&& increment_result(m2, addr, b) == Err::<u64, CourseError>(CourseError::Unauthorized)
            &&& increment_post(m2, addr, b) == m2
            &&& m3[addr].count == u64::MAX
            &&& m3[addr].authority == a
            &&& increment_result(m3, addr, a) == Err::<u64, CourseError>(CourseError::Overflow)
            &&& increment_post(m3, addr, a) == m3
        }),
{
    let addr = derive_addr(tag, a);
    let m1 = create_post(m, tag, a);
    let m2 = increment_post(m1, addr, a);
    lemma_create_then_read(m, tag, a);
    assert(m2[addr].count == 1);
    lemma_repeated_increment(m2, addr, a, (u64::MAX - 1) as nat);
}

impl CounterStore {
    /// The namespace tag this store derives all its addresses under.
    pub closed spec fn tag(self) -> Seq<u8> {
        self.tag_bytes@
    }

    /// The store's contents: a map from derived addresses to record views.
    pub closed spec fn contents(self) -> Map<Seq<u8>, CounterView> {
        entries_map(self.entries@)
    }

    /// Internal consistency: every record sits at the address derived from
    /// its own authority with its stored seed, and no address repeats.
    pub closed spec fn wf(self) -> bool {
        &&& unique_addrs(self.entries@)
        &&& forall|i: int| 0 <= i < self.entries@.len() ==> (#[trigger] self.entries@[i].rec).wf()
        &&& forall|i: int|
            0 <= i < self.entries@.len() ==> (#[trigger] self.entries@[i].addr)@ == derive_addr(
                self.tag_bytes@,
                self.entries@[i].rec.authority@,
            )
        &&& forall|i: int|
            0 <= i < self.entries@.len() ==> (#[trigger] self.entries@[i].rec).bump == derive_bump(
                self.tag_bytes@,
                self.entries@[i].rec.authority@,
            )
    }

    /// Builds an empty store over the given namespace tag.
    pub fn new(namespace_tag: Vec<u8>) -> (r: CounterStore)
        ensures
            r.wf(),
            r.tag() == namespace_tag@,
            r.contents() == Map::<Seq<u8>, CounterView>::empty(),
    {
        CounterStore { tag_bytes: namespace_tag, entries: Vec::new() }
    }

    /// Finds the entry holding `key`, if any.
    fn find_index(&self, key: &Pubkey) -> (r: Option<usize>)
        ensures
            match r {
                Some(i) => i < self.entries@.len() && self.entries@[i as int].addr@ == key@,
                None => forall|i: int|
                    0 <= i < self.entries@.len() ==> (#[trigger] self.entries@[i].addr)@ != key@,
            },
    {
        let mut i: usize = 0;
        while i < self.entries.len()
            invariant
                i <= self.entries@.len(),
                forall|j: int| 0 <= j < i ==> (#[trigger] self.entries@[j].addr)@ != key@,
            decreases self.entries@.len() - i,
        {
            if self.entries[i].addr.equals(key) {
                return Some(i);
            }
            i = i + 1;
        }
        None
    }

    /// Derives the record address, and the seed it is derived with, for
    /// `owner` under this store's namespace tag. A pure function of the tag
    /// and the owner; the result never lands in the identity space.
    pub fn derive_record_address(&self, owner: &Pubkey) -> (r: (Pubkey, u8))
        requires
            owner.wf(),
        ensures
            r.0@ == derive_addr(self.tag(), owner@),
            r.1 == derive_bump(self.tag(), owner@),
            r.0.wf(),
            !is_identity_capable(r.0@),
    {
        derive_address(&self.tag_bytes, owner)
    }

    /// Creates the record for `owner` at its derived address: refused with
    /// `AlreadyInitialized` if that address is occupied, otherwise installs
    /// an owner-bound record with count zero and returns the address.
    pub fn create(&mut self, owner: &Pubkey) -> (r: Result<Pubkey, CourseError>)
        requires
            old(self).wf(),
            owner.wf(),
        ensures
            final(self).wf(),
            final(self).tag() == old(self).tag(),
            final(self).contents() == create_post(old(self).contents(), old(self).tag(), owner@),
            r is Ok <==> create_ok(old(self).contents(), old(self).tag(), owner@),
            r matches Ok(k) ==> k@ == derive_addr(old(self).tag(), owner@) && k.wf(),
            r matches Err(e) ==> e == CourseError::AlreadyInitialized,
    {
        let (addr, bump) = derive_address(&self.tag_bytes, owner);
        proof {
            lemma_entries_map_domain(self.entries@, addr@);
        }
        match self.find_index(&addr) {
            Some(_) => Err(CourseError::AlreadyInitialized),
            None => {
                let ghost s0 = self.entries@;
                let ret = addr.duplicate();
                let entry = Entry { addr, rec: Counter { authority: owner.duplicate(), count: 0u64, bump } };
                let ghost ge = entry;
                self.entries.push(entry);
                proof {
                    assert(self.entries@ == s0.push(ge));
                    assert(s0.push(ge).drop_last() =~= s0);
                    assert(s0.push(ge).last() == ge);
                    assert(ge.rec@ =~= fresh_record(old(self).tag(), owner@));
                    assert(final(self).contents() == old(self).contents().insert(
                        derive_addr(old(self).tag(), owner@),
                        fresh_record(old(self).tag(), owner@),
                    ));
                    assert forall|p: int, q: int|
                        0 <= p < q < self.entries@.len() implies #[trigger] self.entries@[p].addr@
                        != #[trigger] self.entries@[q].addr@ by {
                        if q < s0.len() {
                            assert(s0[p].addr@ != s0[q].addr@);
                        } else {
                            assert(s0[p].addr@ != ge.addr@);
                        }
                    }
                    assert(final(self).wf());
                }
                Ok(ret)
            },
        }
    }

    /// Increments the record at `address` on behalf of `requester`. The
    /// authorization gate runs first: a foreign requester is refused with
    /// `Unauthorized`, a counter at the representable maximum with
    /// `Overflow`, and in both cases the store is left unchanged. On success
    /// the one record's count moves up by exactly one and every other record
    /// is untouched.
    pub fn increment(&mut self, address: &Pubkey, requester: &Pubkey) -> (r: Result<
        u64,
        CourseError,
    >)
        requires
            old(self).wf(),
            old(self).contents().contains_key(address@),
        ensures
            final(self).wf(),
            final(self).tag() == old(self).tag(),
            r == increment_result(old(self).contents(), address@, requester@),
            final(self).contents() == increment_post(old(self).contents(), address@, requester@),
    {
        proof {
            lemma_entries_map_domain(self.entries@, address@);
        }
        match self.find_index(address) {
            None => {
                // unreachable: the precondition says a record exists here
                proof {
                    assert(false);
                }
                Err(CourseError::Unauthorized)
            },
            Some(i) => {
                proof {
                    lemma_entries_map_index(self.entries@, i as int);
                }
                let ghost s0 = self.entries@;
                let ghost m0 = old(self).contents();
                let r = self.entries[i].rec.increment(requester);
                proof {
                    let e2 = self.entries@[i as int];
                    assert(self.entries@ == s0.update(i as int, e2));
                    assert(e2.addr@ == s0[i as int].addr@);
                    lemma_entries_map_update(s0, i as int, e2);
                    assert(e2.rec@ == counter_increment_post(m0[address@], requester@));
                    if !(counter_increment_result(m0[address@], requester@) is Ok) {
                        assert(e2.rec@ == m0[address@]);
                        assert(m0.insert(address@, m0[address@]) =~= m0);
                    }
                    assert forall|p: int, q: int|
                        0 <= p < q < self.entries@.len() implies #[trigger] self.entries@[p].addr@
                        != #[trigger] self.entries@[q].addr@ by {
                        assert(s0[p].addr@ != s0[q].addr@);
                    }
                    assert(final(self).wf());
                }
                r
            },
        }
    }

    /// Reads the record at `address`, if one exists.
    pub fn get(&self, address: &Pubkey) -> (r: Option<&Counter>)
        requires
            self.wf(),
        ensures
            match r {
                Some(c) => self.contents().contains_key(address@) && c@ == self.contents()[address@],
                None => !self.contents().contains_key(address@),
            },
    {
        proof {
            lemma_entries_map_domain(self.entries@, address@);
        }
        match self.find_index(address) {
            Some(i) => {
                proof {
                    lemma_entries_map_index(self.entries@, i as int);
                }
                Some(&self.entries[i].rec)
            },
            None => None,
        }
    }
}

} // verus!
