//! The identity registry: peer identifiers mapped to display names.
//!
//! Announcements feed `upsert`, which overwrites any earlier name for the
//! same peer — last write wins, no versioning. `resolve` never fails: it
//! returns the stored name when one exists and otherwise a short,
//! deterministic, non-empty hexadecimal rendering of the identifier.
//! Entries are never evicted.
//!
//! The registry is modelled as a `Map` from identifier bytes to name
//! bytes; the backing store is an association list whose keys stay
//! pairwise distinct.

use vstd::prelude::*;
use vstd::slice::slice_to_vec;

use crate::envelope::PeerId;

verus! {

/// Length in bytes of the fallback rendering of an identifier: the first
/// five bytes, two hexadecimal digits each.
pub const SHORT_ID_LEN: usize = 10;

/// The lower-case hexadecimal digit of `v`, as an ASCII byte.
pub open spec fn spec_hex_digit(v: u8) -> u8
    recommends
        v < 16,
{
    if v < 10 {
        (0x30 + v) as u8
    } else {
        (0x57 + v) as u8
    }
}

fn hex_digit(v: u8) -> (r: u8)
    requires
        v < 16,
    ensures
        r == spec_hex_digit(v),
{
    if v < 10 {
        0x30 + v
    } else {
        0x57 + v
    }
}

/// The short deterministic rendering of an identifier: its first five
/// bytes in lower-case hexadecimal.
pub open spec fn spec_short_id(id: Seq<u8>) -> Seq<u8>
    recommends
        id.len() >= 5,
{
    Seq::new(
        SHORT_ID_LEN as nat,
        |i: int|
            if i % 2 == 0 {
                spec_hex_digit(id[i / 2] / 16)
            } else {
                spec_hex_digit(id[i / 2] % 16)
            },
    )
}

/// Renders the fallback display string of `id`.
pub fn short_id(id: &PeerId) -> (r: Vec<u8>)
    ensures
        r@ == spec_short_id(id@),
        r@.len() == SHORT_ID_LEN,
{
    let mut out: Vec<u8> = Vec::new();
    let mut i: usize = 0;
    while i < 5
        invariant
            i <= 5,
            out@.len() == 2 * i,
            forall|j: int| 0 <= j < 2 * i ==> out@[j] == spec_short_id(id@)[j],
        decreases 5 - i,
    {
        let b = id.bytes[i];
        out.push(hex_digit(b / 16));
        out.push(hex_digit(b % 16));
        proof {
            assert(out@[2 * i] == spec_short_id(id@)[2 * i]);
            assert(out@[2 * i + 1] == spec_short_id(id@)[2 * i + 1]);
        }
        i = i + 1;
    }
    proof {
        assert(out@ =~= spec_short_id(id@));
    }
    out
}

/// The display string a name table yields for `id`: the stored name when
/// one is present, the short rendering of the raw identifier otherwise.
pub open spec fn spec_resolve(names: Map<Seq<u8>, Seq<u8>>, id: Seq<u8>) -> Seq<u8> {
    if names.contains_key(id) {
        names[id]
    } else {
        spec_short_id(id)
    }
}

/// Resolving an unknown identifier falls back to the short rendering,
/// which is never empty: resolution cannot fail.
pub proof fn lemma_unknown_resolves_short(names: Map<Seq<u8>, Seq<u8>>, id: Seq<u8>)
    requires
        !names.contains_key(id),
    ensures
        spec_resolve(names, id) == spec_short_id(id),
        spec_resolve(names, id).len() == SHORT_ID_LEN,
{
}

/// Last write wins: after two upserts for one identifier, resolution
/// returns the later name, whatever the table held before.
pub proof fn lemma_last_write_wins(
    names: Map<Seq<u8>, Seq<u8>>,
    id: Seq<u8>,
    first: Seq<u8>,
    second: Seq<u8>,
)
    ensures
        spec_resolve(names.insert(id, first).insert(id, second), id) == second,
{
}

/// Once a name is recorded for `id`, resolution returns it, however many
/// other peers the table also holds.
pub proof fn lemma_resolve_after_upsert(names: Map<Seq<u8>, Seq<u8>>, id: Seq<u8>, name: Seq<u8>)
    ensures
        spec_resolve(names.insert(id, name), id) == name,
{
}

/// The map that an association list denotes: later entries override
/// earlier ones.
pub open spec fn entries_map(s: Seq<(PeerId, Vec<u8>)>) -> Map<Seq<u8>, Seq<u8>>
    decreases s.len(),
{
    if s.len() == 0 {
        Map::empty()
    } else {
        entries_map(s.drop_last()).insert(s.last().0@, s.last().1@)
    }
}

/// No entry of `s` carries the key `k`.
pub open spec fn no_key(s: Seq<(PeerId, Vec<u8>)>, k: Seq<u8>) -> bool {
    forall|i: int| 0 <= i < s.len() ==> s[i].0@ != k
}

/// The keys of `s` are pairwise distinct.
pub open spec fn unique_keys(s: Seq<(PeerId, Vec<u8>)>) -> bool {
    forall|i: int, j: int| 0 <= i < j < s.len() ==> s[i].0@ != s[j].0@
}

proof fn lemma_no_key_absent(s: Seq<(PeerId, Vec<u8>)>, k: Seq<u8>)
    requires
        no_key(s, k),
    ensures
        !entries_map(s).contains_key(k),
    decreases s.len(),
{
    if s.len() > 0 {
        assert forall|i: int| 0 <= i < s.drop_last().len() implies s.drop_last()[i].0@ != k by {
            assert(s[i].0@ != k);
        }
        lemma_no_key_absent(s.drop_last(), k);
        assert(s[s.len() - 1].0@ != k);
    }
}

proof fn lemma_push(s: Seq<(PeerId, Vec<u8>)>, e: (PeerId, Vec<u8>))
    ensures
        entries_map(s.push(e)) == entries_map(s).insert(e.0@, e.1@),
{
    assert(s.push(e).drop_last() =~= s);
    assert(s.push(e).last() == e);
}

proof fn lemma_find(s: Seq<(PeerId, Vec<u8>)>, i: int)
    requires
        unique_keys(s),
        0 <= i < s.len(),
    ensures
        entries_map(s).contains_key(s[i].0@),
        entries_map(s)[s[i].0@] == s[i].1@,
    decreases s.len(),
{
    if i < s.len() - 1 {
        assert(s.drop_last()[i] == s[i]);
        assert forall|a: int, b: int|
            0 <= a < b < s.drop_last().len() implies s.drop_last()[a].0@ != s.drop_last()[b].0@ by {
            assert(s[a].0@ != s[b].0@);
        }
        lemma_find(s.drop_last(), i);
        assert(s.last().0@ != s[i].0@);
    }
}

proof fn lemma_remove(s: Seq<(PeerId, Vec<u8>)>, i: int)
    requires
        unique_keys(s),
        0 <= i < s.len(),
    ensures
        entries_map(s.remove(i)) == entries_map(s).remove(s[i].0@),
    decreases s.len(),
{
    let k = s[i].0@;
    assert forall|a: int, b: int|
        0 <= a < b < s.drop_last().len() implies s.drop_last()[a].0@ != s.drop_last()[b].0@ by {
        assert(s[a].0@ != s[b].0@);
    }
    if i == s.len() - 1 {
        assert(s.remove(i) =~= s.drop_last());
        assert forall|j: int| 0 <= j < s.drop_last().len() implies s.drop_last()[j].0@ != k by {
            assert(s[j].0@ != s[i].0@);
        }
        lemma_no_key_absent(s.drop_last(), k);
        assert(entries_map(s.drop_last()) =~= entries_map(s.drop_last()).insert(
            k,
            s[i].1@,
        ).remove(k));
    } else {
        let dl = s.drop_last();
        assert(s.remove(i).len() == s.len() - 1);
        assert(s.remove(i).last() == s.last());
        assert(s.remove(i).drop_last() =~= dl.remove(i));
        assert(dl[i] == s[i]);
        lemma_remove(dl, i);
        assert(s.last().0@ != k);
        assert(entries_map(dl).remove(k).insert(s.last().0@, s.last().1@) =~= entries_map(
            dl,
        ).insert(s.last().0@, s.last().1@).remove(k));
    }
}

/// The registry itself: an association list with pairwise distinct keys.
pub struct IdentityRegistry {
    entries: Vec<(PeerId, Vec<u8>)>,
}

impl View for IdentityRegistry {
    type V = Map<Seq<u8>, Seq<u8>>;

    closed spec fn view(&self) -> Map<Seq<u8>, Seq<u8>> {
        entries_map(self.entries@)
    }
}

impl IdentityRegistry {
    /// The registry's internal invariant: one entry per peer.
    pub closed spec fn wf(&self) -> bool {
        unique_keys(self.entries@)
    }

    /// An empty registry.
    pub fn new() -> (r: IdentityRegistry)
        ensures
            r@ == Map::<Seq<u8>, Seq<u8>>::empty(),
            r.wf(),
    {
        IdentityRegistry { entries: Vec::new() }
    }

    /// Records `name` for `id`, overwriting any earlier name: last write
    /// wins.
    pub fn upsert(&mut self, id: PeerId, name: Vec<u8>)
        requires
            old(self).wf(),
        ensures
            final(self).wf(),
            final(self)@ == old(self)@.insert(id@, name@),
    {
        let ghost s0 = old(self).entries@;
        let mut i: usize = 0;
        while i < self.entries.len()
            invariant
                s0 == old(self).entries@,
                self.entries@ == s0,
                unique_keys(s0),
                i <= s0.len(),
                forall|j: int| 0 <= j < i ==> s0[j].0@ != id@,
            decreases s0.len() - i,
        {
            if self.entries[i].0 == id {
                proof {
                    assert(s0[i as int].0@ == id@);
                    lemma_remove(s0, i as int);
                    assert forall|a: int, b: int|
                        0 <= a < b < s0.remove(i as int).len() implies s0.remove(i as int)[a].0@
                        != s0.remove(i as int)[b].0@ by {
                        if b < i {
                            assert(s0[a].0@ != s0[b].0@);
                        } else if a < i {
                            assert(s0[a].0@ != s0[b + 1].0@);
                        } else {
                            assert(s0[a + 1].0@ != s0[b + 1].0@);
                        }
                    }
                    assert forall|j: int| 0 <= j < s0.remove(i as int).len() implies s0.remove(
                        i as int,
                    )[j].0@ != id@ by {
                        if j < i {
                            assert(s0[j].0@ != s0[i as int].0@);
                        } else {
                            assert(s0[j + 1].0@ != s0[i as int].0@);
                        }
                    }
                }
                self.entries.remove(i);
                let ghost s1 = self.entries@;
                let ghost e = (id, name);
                self.entries.push((id, name));
                proof {
                    assert(s1 == s0.remove(i as int));
                    assert(self.entries@ == s1.push(e));
                    lemma_push(s1, e);
                    lemma_no_key_absent(s1, id@);
                    assert(entries_map(s1) == entries_map(s0).remove(id@));
                    assert(entries_map(s0).remove(id@).insert(id@, name@) =~= entries_map(
                        s0,
                    ).insert(id@, name@));
                    assert(entries_map(self.entries@) == entries_map(s0).insert(id@, name@));
                    assert forall|a: int, b: int|
                        0 <= a < b < s1.push((id, name)).len() implies s1.push((id, name))[a].0@
                        != s1.push((id, name))[b].0@ by {
                        if b < s1.len() {
                            assert(s1[a].0@ != s1[b].0@);
                        } else {
                            assert(s1[a].0@ != id@);
                        }
                    }
                }
                return ;
            }
            i = i + 1;
        }
        proof {
            lemma_push(s0, (id, name));
            lemma_no_key_absent(s0, id@);
            assert(entries_map(s0) =~= entries_map(s0).remove(id@));
            assert(entries_map(s0).remove(id@).insert(id@, name@) =~= entries_map(s0).insert(
                id@,
                name@,
            ));
            assert forall|a: int, b: int|
                0 <= a < b < s0.push((id, name)).len() implies s0.push((id, name))[a].0@ != s0.push(
                (id, name),
            )[b].0@ by {
                if b < s0.len() {
                    assert(s0[a].0@ != s0[b].0@);
                } else {
                    assert(s0[a].0@ != id@);
                }
            }
        }
        self.entries.push((id, name));
    }

    /// The display string of `id`: the stored name when the registry
    /// knows one, otherwise the short deterministic rendering of the raw
    /// identifier. Never fails, and the fallback is never empty.
    pub fn resolve(&self, id: &PeerId) -> (r: Vec<u8>)
        requires
            self.wf(),
        ensures
            r@ == spec_resolve(self@, id@),
            !self@.contains_key(id@) ==> r@.len() > 0,
    {
        let mut i: usize = 0;
        while i < self.entries.len()
            invariant
                unique_keys(self.entries@),
                i <= self.entries@.len(),
                forall|j: int| 0 <= j < i ==> self.entries@[j].0@ != id@,
            decreases self.entries@.len() - i,
        {
            if self.entries[i].0 == *id {
                proof {
                    lemma_find(self.entries@, i as int);
                }
                return slice_to_vec(self.entries[i].1.as_slice());
            }
            i = i + 1;
        }
        proof {
            lemma_no_key_absent(self.entries@, id@);
        }
        short_id(id)
    }
}

} // verus!
