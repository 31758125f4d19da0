//! The deduplication ledger: the identifiers of every listing already
//! persisted, loaded once at the start of a run and grown as listings are
//! stored. A listing whose identifier is in the ledger is not fetched again.

use crate::text::texts;
use vstd::prelude::*;

verus! {

/// The identifiers of `ids` that are neither empty, nor in `known`, nor
/// repeated earlier in `ids`, in order of first appearance.
pub open spec fn unseen(known: Seq<Seq<char>>, ids: Seq<Seq<char>>) -> Seq<Seq<char>>
    decreases ids.len(),
{
    if ids.len() == 0 {
        Seq::empty()
    } else {
        let prev = unseen(known, ids.drop_last());
        let id = ids.last();
        if id.len() == 0 || known.contains(id) || prev.contains(id) {
            prev
        } else {
            prev.push(id)
        }
    }
}

/// What `unseen` keeps: identifiers from `ids`, none empty, none known, none twice;
/// and every non-empty identifier of `ids` is either known or kept.
pub proof fn lemma_unseen_shape(known: Seq<Seq<char>>, ids: Seq<Seq<char>>)
    ensures
        unseen(known, ids).no_duplicates(),
        forall|x: Seq<char>| #[trigger]
            unseen(known, ids).contains(x) ==> ids.contains(x) && x.len() > 0 && !known.contains(
                x,
            ),
        forall|x: Seq<char>|
            ids.contains(x) && x.len() > 0 ==> known.contains(x) || #[trigger] unseen(
                known,
                ids,
            ).contains(x),
    decreases ids.len(),
{
    if ids.len() > 0 {
        let prev = unseen(known, ids.drop_last());
        lemma_unseen_shape(known, ids.drop_last());
        assert forall|x: Seq<char>| ids.drop_last().contains(x) implies ids.contains(x) by {
            let i = choose|i: int| 0 <= i < ids.drop_last().len() && ids.drop_last()[i] == x;
            assert(ids[i] == x);
        }
        assert forall|x: Seq<char>| ids.contains(x) && x != ids.last() implies ids.drop_last().contains(
            x,
        ) by {
            let i = choose|i: int| 0 <= i < ids.len() && ids[i] == x;
            assert(i != ids.len() - 1);
            assert(ids.drop_last()[i] == x);
        }
        assert(ids.contains(ids.last())) by {
            assert(ids[ids.len() - 1] == ids.last());
        }
        let id = ids.last();
        let cur = unseen(known, ids);
        if !(id.len() == 0 || known.contains(id) || prev.contains(id)) {
            assert forall|x: Seq<char>| #[trigger] prev.push(id).contains(x) implies prev.contains(
                x,
            ) || x == id by {
                let i = choose|i: int| 0 <= i < prev.push(id).len() && prev.push(id)[i] == x;
                if i < prev.len() {
                    assert(prev[i] == x);
                }
            }
            assert(prev.push(id)[prev.len() as int] == id);
            assert forall|x: Seq<char>| #[trigger] prev.contains(x) implies prev.push(id).contains(
                x,
            ) by {
                let i = choose|i: int| 0 <= i < prev.len() && prev[i] == x;
                assert(prev.push(id)[i] == x);
            }
            assert(prev.push(id).no_duplicates()) by {
                assert forall|i: int, j: int|
                    0 <= i < prev.push(id).len() && 0 <= j < prev.push(id).len() && i != j
                        implies prev.push(id)[i] != prev.push(id)[j] by {
                    if i < prev.len() && j < prev.len() {
                    } else if i < prev.len() {
                        assert(prev.contains(prev[i]));
                    } else {
                        assert(prev.contains(prev[j]));
                    }
                }
            }
        }
        assert(forall|x: Seq<char>| prev.contains(x) ==> #[trigger] cur.contains(x));
        assert forall|x: Seq<char>| ids.contains(x) && x.len() > 0 implies known.contains(x)
            || #[trigger] cur.contains(x) by {
            if x != id {
                assert(ids.drop_last().contains(x));
            }
        }
    }
}

/// The ledger. Its identifiers are kept in the order they were recorded,
/// which is the order of the lines of the ledger file, each once.
pub struct DedupLedger {
    ids: Vec<String>,
}

impl DedupLedger {
    /// The identifiers recorded, in order.
    pub closed spec fn entries(&self) -> Seq<Seq<char>> {
        texts(self.ids@)
    }

    pub open spec fn wf(&self) -> bool {
        self.entries().no_duplicates()
    }

    /// A ledger with nothing recorded.
    pub fn new() -> (r: DedupLedger)
        ensures
            r.wf(),
            r.entries() == Seq::<Seq<char>>::empty(),
    {
        let r = DedupLedger { ids: Vec::new() };
        assert(r.entries() =~= Seq::<Seq<char>>::empty());
        r
    }

    /// The ledger that the lines of a ledger file describe: each non-empty line
    /// once, at its first appearance.
    pub fn from_lines(lines: &Vec<String>) -> (r: DedupLedger)
        ensures
            r.wf(),
            r.entries() == unseen(Seq::empty(), texts(lines@)),
    {
        let empty = DedupLedger::new();
        let ids = empty.unseen_of(lines);
        proof {
            lemma_unseen_shape(Seq::empty(), texts(lines@));
        }
        DedupLedger { ids }
    }

    /// Whether `id` has been recorded.
    pub fn contains(&self, id: &String) -> (r: bool)
        ensures
            r == self.entries().contains(id@),
    {
        let mut i: usize = 0;
        while i < self.ids.len()
            invariant
                i <= self.ids.len(),
                forall|j: int| 0 <= j < i ==> self.ids@[j]@ != id@,
            decreases self.ids.len() - i,
        {
            if self.ids[i] == *id {
                assert(self.entries()[i as int] == id@);
                return true;
            }
            i = i + 1;
        }
        assert(!self.entries().contains(id@)) by {
            if self.entries().contains(id@) {
                let j = choose|j: int| 0 <= j < self.entries().len() && self.entries()[j] == id@;
                assert(self.ids@[j]@ == id@);
            }
        }
        false
    }

    /// Records `id`, which was just persisted. Recording an identifier that is
    /// already there, or an empty one, changes nothing. Returns whether it was added.
    pub fn record(&mut self, id: String) -> (r: bool)
        requires
            old(self).wf(),
        ensures
            final(self).wf(),
            r == (id@.len() > 0 && !old(self).entries().contains(id@)),
            final(self).entries() == if r {
                old(self).entries().push(id@)
            } else {
                old(self).entries()
            },
    {
        if id.as_str().is_empty() || self.contains(&id) {
            return false;
        }
        let ghost before = self.entries();
        self.ids.push(id);
        proof {
            assert(self.entries() =~= before.push(id@));
            assert forall|i: int, j: int|
                0 <= i < self.entries().len() && 0 <= j < self.entries().len() && i != j
                    implies self.entries()[i] != self.entries()[j] by {
                if i < before.len() && j < before.len() {
                } else if i < before.len() {
                    assert(before.contains(before[i]));
                } else {
                    assert(before.contains(before[j]));
                }
            }
        }
        true
    }

    /// The number of identifiers recorded.
    pub fn len(&self) -> (r: usize)
        ensures
            r == self.entries().len(),
    {
        self.ids.len()
    }

    /// The identifiers of `ids` that still need fetching: those neither empty,
    /// nor recorded, nor repeated earlier in `ids`, in order.
    pub fn unseen_of(&self, ids: &Vec<String>) -> (r: Vec<String>)
        ensures
            texts(r@) == unseen(self.entries(), texts(ids@)),
    {
        let mut r: Vec<String> = Vec::new();
        let mut i: usize = 0;
        while i < ids.len()
            invariant
                i <= ids.len(),
                texts(r@) == unseen(self.entries(), texts(ids@).take(i as int)),
            decreases ids.len() - i,
        {
            let id = &ids[i];
            let ghost prefix = texts(ids@).take(i as int);
            assert(texts(ids@).take(i + 1).drop_last() =~= prefix);
            assert(texts(ids@).take(i + 1).last() == id@);
            if !id.as_str().is_empty() && !self.contains(id) && !contains_text_in(&r, id) {
                r.push(id.clone());
                assert(texts(r@) =~= unseen(self.entries(), texts(ids@).take(i as int)).push(id@));
            }
            i = i + 1;
        }
        assert(texts(ids@).take(ids.len() as int) =~= texts(ids@));
        r
    }
}

/// Whether one of the strings of `v` holds exactly the text of `s`.
fn contains_text_in(v: &Vec<String>, s: &String) -> (r: bool)
    ensures
        r == texts(v@).contains(s@),
{
    let mut i: usize = 0;
    while i < v.len()
        invariant
            i <= v.len(),
            forall|j: int| 0 <= j < i ==> v@[j]@ != s@,
        decreases v.len() - i,
    {
        if v[i] == *s {
            assert(texts(v@)[i as int] == s@);
            return true;
        }
        i = i + 1;
    }
    assert(!texts(v@).contains(s@)) by {
        if texts(v@).contains(s@) {
            let j = choose|j: int| 0 <= j < texts(v@).len() && texts(v@)[j] == s@;
            assert(v@[j]@ == s@);
        }
    }
    false
}

/// A re-run over the same identifiers finds nothing left to fetch: after every
/// unseen identifier of `ids` has been recorded, none of `ids` is unseen any
/// more, and the ledger still holds no identifier twice.
pub proof fn lemma_rerun_finds_nothing(known: Seq<Seq<char>>, ids: Seq<Seq<char>>)
    requires
        known.no_duplicates(),
    ensures
        (known + unseen(known, ids)).no_duplicates(),
        unseen(known + unseen(known, ids), ids) == Seq::<Seq<char>>::empty(),
{
    let fresh = unseen(known, ids);
    let after = known + fresh;
    lemma_unseen_shape(known, ids);
    lemma_unseen_shape(after, ids);
    assert forall|i: int, j: int| 0 <= i < after.len() && 0 <= j < after.len() && i != j implies after[i]
        != after[j] by {
        if i < known.len() && j < known.len() {
        } else if i < known.len() {
            assert(fresh[j - known.len()] == after[j]);
            assert(fresh.contains(after[j]));
            assert(known.contains(after[i]));
        } else if j < known.len() {
            assert(fresh[i - known.len()] == after[i]);
            assert(fresh.contains(after[i]));
            assert(known.contains(after[j]));
        } else {
            assert(fresh[i - known.len()] == after[i]);
            assert(fresh[j - known.len()] == after[j]);
        }
    }
    assert forall|x: Seq<char>| ids.contains(x) && x.len() > 0 implies after.contains(x) by {
        if known.contains(x) {
            let k = choose|k: int| 0 <= k < known.len() && known[k] == x;
            assert(after[k] == x);
        } else {
            assert(fresh.contains(x));
            let k = choose|k: int| 0 <= k < fresh.len() && fresh[k] == x;
            assert(after[known.len() + k] == x);
        }
    }
    let again = unseen(after, ids);
    if again.len() > 0 {
        assert(again.contains(again[0]));
    }
    assert(again =~= Seq::<Seq<char>>::empty());
}

} // verus!
