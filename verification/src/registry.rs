//! Pending-synthesis registry: the set of synthesized key-downs this
//! process has sent that are not yet matched by a synthesized key-up,
//! keyed by (scan code, device). It exists so that shutdown can release
//! every key left logically down.

use vstd::prelude::*;

verus! {

/// True when no (code, device) pair occurs twice.
pub open spec fn no_dups(s: Seq<(u16, i32)>) -> bool {
    forall|i: int, j: int| 0 <= i < j < s.len() ==> s[i] != s[j]
}

/// `s` with `e` appended, unless `e` is already present.
pub open spec fn seq_insert(s: Seq<(u16, i32)>, e: (u16, i32)) -> Seq<(u16, i32)> {
    if s.contains(e) {
        s
    } else {
        s.push(e)
    }
}

/// How many times `e` occurs in `s`.
pub open spec fn pair_count(s: Seq<(u16, i32)>, e: (u16, i32)) -> nat
    decreases s.len(),
{
    if s.len() == 0 {
        0
    } else {
        pair_count(s.drop_last(), e) + if s.last() == e {
            1nat
        } else {
            0nat
        }
    }
}

pub proof fn lemma_push_contains(s: Seq<(u16, i32)>, e: (u16, i32), x: (u16, i32))
    ensures
        s.push(e).contains(x) <==> (s.contains(x) || x == e),
{
    if s.contains(x) {
        let i = choose|i: int| 0 <= i < s.len() && s[i] == x;
        assert(s.push(e)[i] == x);
    }
    if x == e {
        assert(s.push(e)[s.len() as int] == x);
    }
    if s.push(e).contains(x) {
        let i = choose|i: int| 0 <= i < s.push(e).len() && s.push(e)[i] == x;
        if i < s.len() {
            assert(s[i] == x);
        }
    }
}

/// Membership after an insert: the inserted pair and everything already there.
pub proof fn lemma_insert_contains(s: Seq<(u16, i32)>, e: (u16, i32), x: (u16, i32))
    ensures
        seq_insert(s, e).contains(x) <==> (s.contains(x) || x == e),
{
    if !s.contains(e) {
        lemma_push_contains(s, e, x);
    }
}

/// Inserting keeps the no-duplicates invariant.
pub proof fn lemma_insert_no_dups(s: Seq<(u16, i32)>, e: (u16, i32))
    requires
        no_dups(s),
    ensures
        no_dups(seq_insert(s, e)),
{
    if !s.contains(e) {
        let t = s.push(e);
        assert forall|i: int, j: int| 0 <= i < j < t.len() implies t[i] != t[j] by {
            if j == s.len() {
                assert(t[i] == s[i]);
                if s[i] == e {
                    assert(s.contains(e));
                }
            }
        }
    }
}

/// Removing an index keeps the no-duplicates invariant.
pub proof fn lemma_remove_no_dups(s: Seq<(u16, i32)>, k: int)
    requires
        no_dups(s),
        0 <= k < s.len(),
    ensures
        no_dups(s.remove(k)),
{
    let t = s.remove(k);
    s.remove_ensures(k);
    assert forall|i: int, j: int| 0 <= i < j < t.len() implies t[i] != t[j] by {
        let oi: int = if i < k { i } else { i + 1 };
        let oj: int = if j < k { j } else { j + 1 };
        assert(t[i] == s[oi]);
        assert(t[j] == s[oj]);
    }
}

/// Membership after `remove_value` on a duplicate-free sequence: the removed
/// pair is gone, every other pair is untouched, and no duplicates appear.
pub proof fn lemma_remove_value_unique(s: Seq<(u16, i32)>, e: (u16, i32))
    requires
        no_dups(s),
    ensures
        no_dups(s.remove_value(e)),
        !s.remove_value(e).contains(e),
        forall|x: (u16, i32)| x != e ==> (s.remove_value(e).contains(x) <==> s.contains(x)),
{
    s.index_of_first_ensures(e);
    match s.index_of_first(e) {
        Some(k) => {
            let t = s.remove(k);
            s.remove_ensures(k);
            lemma_remove_no_dups(s, k);
            assert forall|x: (u16, i32)| t.contains(x) implies (s.contains(x) && (x == e
                ==> false)) by {
                let i = choose|i: int| 0 <= i < t.len() && t[i] == x;
                let oi: int = if i < k {
                    i
                } else {
                    i + 1
                };
                assert(s[oi] == x);
                if x == e {
                    assert(oi != k);
                    assert(s[oi] == s[k]);
                }
            }
            assert forall|x: (u16, i32)| x != e && s.contains(x) implies t.contains(x) by {
                let i = choose|i: int| 0 <= i < s.len() && s[i] == x;
                assert(i != k);
                if i < k {
                    assert(t[i] == x);
                } else {
                    assert(t[i - 1] == x);
                }
            }
        },
        None => {},
    }
}

/// On a duplicate-free sequence a pair occurs exactly once or not at all.
pub proof fn lemma_no_dups_count(s: Seq<(u16, i32)>, e: (u16, i32))
    requires
        no_dups(s),
    ensures
        pair_count(s, e) == if s.contains(e) {
            1nat
        } else {
            0nat
        },
    decreases s.len(),
{
    if s.len() > 0 {
        let p = s.drop_last();
        assert(forall|i: int, j: int| 0 <= i < j < p.len() ==> p[i] != p[j]) by {
            assert(forall|i: int| 0 <= i < p.len() ==> p[i] == s[i]);
        }
        lemma_no_dups_count(p, e);
        if s.last() == e {
            if p.contains(e) {
                let i = choose|i: int| 0 <= i < p.len() && p[i] == e;
                assert(s[i] == e);
                assert(s[s.len() - 1] == e);
            }
            assert(s.contains(e)) by {
                assert(s[s.len() - 1] == e);
            }
        } else {
            if s.contains(e) {
                let i = choose|i: int| 0 <= i < s.len() && s[i] == e;
                assert(p[i] == e);
            } else if p.contains(e) {
                let i = choose|i: int| 0 <= i < p.len() && p[i] == e;
                assert(s[i] == e);
            }
        }
    }
}

/// The registry itself: a small duplicate-free list of (code, device) pairs.
/// Bounded by construction: at most one entry per synthesized key per device.
pub struct PendingRegistry {
    entries: Vec<(u16, i32)>,
}

impl View for PendingRegistry {
    type V = Seq<(u16, i32)>;

    closed spec fn view(&self) -> Seq<(u16, i32)> {
        self.entries@
    }
}

impl PendingRegistry {
    /// Internal invariant: no pair is recorded twice.
    pub open spec fn wf(&self) -> bool {
        no_dups(self@)
    }

    pub fn new() -> (r: PendingRegistry)
        ensures
            r@ == Seq::<(u16, i32)>::empty(),
            r.wf(),
    {
        let r = PendingRegistry { entries: Vec::new() };
        proof {
            assert(r@ =~= Seq::<(u16, i32)>::empty());
        }
        r
    }

    pub fn len(&self) -> (n: usize)
        ensures
            n == self@.len(),
    {
        self.entries.len()
    }

    pub fn get(&self, i: usize) -> (e: (u16, i32))
        requires
            i < self@.len(),
        ensures
            e == self@[i as int],
    {
        self.entries[i]
    }

    /// Whether a synthesized down for (code, device) is still unmatched.
    pub fn contains(&self, code: u16, device: i32) -> (r: bool)
        ensures
            r == self@.contains((code, device)),
    {
        let mut i: usize = 0;
        while i < self.entries.len()
            invariant
                i <= self.entries.len(),
                forall|j: int| 0 <= j < i ==> self.entries@[j] != (code, device),
            decreases self.entries.len() - i,
        {
            if self.entries[i].0 == code && self.entries[i].1 == device {
                assert(self@[i as int] == (code, device));
                return true;
            }
            i = i + 1;
        }
        false
    }

    /// Record that a synthesized down for (code, device) was sent.
    pub fn record(&mut self, code: u16, device: i32)
        requires
            old(self).wf(),
        ensures
            final(self).wf(),
            final(self)@ == seq_insert(old(self)@, (code, device)),
    {
        if !self.contains(code, device) {
            self.entries.push((code, device));
            proof {
                lemma_insert_no_dups(old(self)@, (code, device));
            }
        }
    }

    /// Record that the matching synthesized up for (code, device) was sent.
    pub fn release(&mut self, code: u16, device: i32)
        requires
            old(self).wf(),
        ensures
            final(self).wf(),
            final(self)@ == old(self)@.remove_value((code, device)),
    {
        let e = (code, device);
        let mut i: usize = 0;
        while i < self.entries.len()
            invariant
                self@ == old(self)@,
                no_dups(self@),
                i <= self.entries.len(),
                forall|j: int| 0 <= j < i ==> self.entries@[j] != e,
                e == (code, device),
            decreases self.entries.len() - i,
        {
            if self.entries[i].0 == code && self.entries[i].1 == device {
                assert(self@[i as int] == e);
                proof {
                    self@.index_of_first_ensures(e);
                    let k = self@.index_of_first(e).unwrap();
                    assert(k == i as int) by {
                        if k < i as int {
                            assert(self@[k] != e);
                        }
                        if k > i as int {
                            assert(self@[i as int] != e);
                        }
                    }
                    lemma_remove_no_dups(self@, i as int);
                }
                self.entries.remove(i);
                return ;
            }
            i = i + 1;
        }
        proof {
            self@.index_of_first_ensures(e);
            if self@.contains(e) {
                let j = choose|j: int| 0 <= j < self@.len() && self@[j] == e;
                assert(self@[j] != e);
            }
        }
    }

    /// Forget every entry.
    pub fn clear(&mut self)
        ensures
            final(self)@ == Seq::<(u16, i32)>::empty(),
            final(self).wf(),
    {
        self.entries.clear();
        proof {
            assert(self@ =~= Seq::<(u16, i32)>::empty());
        }
    }
}

} // verus!
