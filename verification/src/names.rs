//! An ordered table from type names to type keys.
//!
//! Names are kept in ascending order of their characters, which is the
//! order in which a `BTreeMap<&str, _>` walks its keys: comparing UTF-8
//! bytes and comparing code points give the same order.
use vstd::prelude::*;

use crate::TypeKey;

verus! {

/// The outcome of comparing two names.
#[derive(Debug, Clone, Copy, PartialEq, Eq)]
pub enum NameOrder {
    Less,
    Equal,
    Greater,
}

/// Strict lexicographic order on character sequences, by code point.
pub open spec fn chars_lt(a: Seq<char>, b: Seq<char>) -> bool
    decreases a.len(),
{
    if a.len() == 0 {
        b.len() > 0
    } else if b.len() == 0 {
        false
    } else if a[0] != b[0] {
        (a[0] as int) < (b[0] as int)
    } else {
        chars_lt(a.drop_first(), b.drop_first())
    }
}

/// No name is below itself.
pub proof fn lemma_chars_lt_irreflexive(a: Seq<char>)
    ensures
        !chars_lt(a, a),
    decreases a.len(),
{
    if a.len() > 0 {
        lemma_chars_lt_irreflexive(a.drop_first());
    }
}

/// Two names are never below each other.
pub proof fn lemma_chars_lt_asymmetric(a: Seq<char>, b: Seq<char>)
    ensures
        !(chars_lt(a, b) && chars_lt(b, a)),
    decreases a.len(),
{
    if a.len() > 0 && b.len() > 0 && a[0] == b[0] {
        lemma_chars_lt_asymmetric(a.drop_first(), b.drop_first());
    }
}

/// The order is transitive.
pub proof fn lemma_chars_lt_transitive(a: Seq<char>, b: Seq<char>, c: Seq<char>)
    requires
        chars_lt(a, b),
        chars_lt(b, c),
    ensures
        chars_lt(a, c),
    decreases a.len(),
{
    if a.len() > 0 && b.len() > 0 && c.len() > 0 && a[0] == b[0] && b[0] == c[0] {
        lemma_chars_lt_transitive(a.drop_first(), b.drop_first(), c.drop_first());
    }
}

/// Two distinct names are ordered one way or the other.
pub proof fn lemma_chars_lt_total(a: Seq<char>, b: Seq<char>)
    ensures
        a == b || chars_lt(a, b) || chars_lt(b, a),
    decreases a.len(),
{
    if a.len() == 0 && b.len() == 0 {
        assert(a =~= b);
    } else if a.len() > 0 && b.len() > 0 && a[0] != b[0] {
    } else if a.len() > 0 && b.len() > 0 && a[0] == b[0] {
        lemma_chars_lt_total(a.drop_first(), b.drop_first());
        if a.drop_first() == b.drop_first() {
            assert(a =~= seq![a[0]] + a.drop_first());
            assert(b =~= seq![b[0]] + b.drop_first());
        }
    }
}

/// Comparing two names after a common prefix of length `i` decides as the
/// comparison of the whole names does.
proof fn lemma_chars_lt_skip(a: Seq<char>, b: Seq<char>, i: int)
    requires
        0 <= i <= a.len(),
        i <= b.len(),
        a.take(i) == b.take(i),
    ensures
        chars_lt(a, b) == chars_lt(a.skip(i), b.skip(i)),
    decreases i,
{
    if i == 0 {
        assert(a.skip(0) =~= a);
        assert(b.skip(0) =~= b);
    } else {
        assert(a[0] == a.take(i)[0]);
        assert(b[0] == b.take(i)[0]);
        assert(a.drop_first().take(i - 1) =~= a.take(i).drop_first());
        assert(b.drop_first().take(i - 1) =~= b.take(i).drop_first());
        lemma_chars_lt_skip(a.drop_first(), b.drop_first(), i - 1);
        assert(a.drop_first().skip(i - 1) =~= a.skip(i));
        assert(b.drop_first().skip(i - 1) =~= b.skip(i));
    }
}

/// The name order is code-point order at the first difference: when two
/// names agree on their first `i` characters and differ at position `i`, the
/// one whose character there has the smaller code point comes first.
pub proof fn law_chars_lt_first_difference(a: Seq<char>, b: Seq<char>, i: int)
    requires
        0 <= i < a.len(),
        i < b.len(),
        forall|j: int| 0 <= j < i ==> a[j] == b[j],
        a[i] != b[i],
    ensures
        chars_lt(a, b) <==> (a[i] as int) < (b[i] as int),
        chars_lt(b, a) <==> (b[i] as int) < (a[i] as int),
{
    assert(a.take(i) =~= b.take(i));
    lemma_chars_lt_skip(a, b, i);
    lemma_chars_lt_skip(b, a, i);
    assert(a.skip(i)[0] == a[i]);
    assert(b.skip(i)[0] == b[i]);
}

/// A name comes before every longer name that it begins, and after none.
pub proof fn law_chars_lt_prefix(a: Seq<char>, b: Seq<char>)
    requires
        a.len() < b.len(),
        forall|j: int| 0 <= j < a.len() ==> a[j] == b[j],
    ensures
        chars_lt(a, b),
        !chars_lt(b, a),
{
    let i = a.len() as int;
    assert(a.take(i) =~= b.take(i));
    lemma_chars_lt_skip(a, b, i);
    lemma_chars_lt_skip(b, a, i);
    assert(a.skip(i).len() == 0);
    assert(b.skip(i).len() > 0);
}

/// Compares two names character by character.
pub fn compare_names(a: &str, b: &str) -> (r: NameOrder)
    ensures
        (r == NameOrder::Less) == chars_lt(a@, b@),
        (r == NameOrder::Equal) == (a@ == b@),
        (r == NameOrder::Greater) == chars_lt(b@, a@),
{
    let la = a.unicode_len();
    let lb = b.unicode_len();
    let mut i: usize = 0;
    while i < la && i < lb
        invariant
            la == a@.len(),
            lb == b@.len(),
            i <= la,
            i <= lb,
            a@.take(i as int) == b@.take(i as int),
        decreases la - i,
    {
        let ca = a.get_char(i);
        let cb = b.get_char(i);
        let na: u32 = ca as u32;
        let nb: u32 = cb as u32;
        if na != nb {
            proof {
                lemma_chars_lt_skip(a@, b@, i as int);
                lemma_chars_lt_skip(b@, a@, i as int);
                assert(a@.skip(i as int)[0] == ca);
                assert(b@.skip(i as int)[0] == cb);
                assert(a@[i as int] != b@[i as int]);
            }
            if na < nb {
                return NameOrder::Less;
            } else {
                return NameOrder::Greater;
            }
        }
        proof {
            assert(a@.take(i + 1) =~= a@.take(i as int).push(ca));
            assert(b@.take(i + 1) =~= b@.take(i as int).push(cb));
        }
        i = i + 1;
    }
    proof {
        lemma_chars_lt_skip(a@, b@, i as int);
        lemma_chars_lt_skip(b@, a@, i as int);
    }
    if la == lb {
        proof {
            assert(a@ =~= a@.take(i as int));
            assert(b@ =~= b@.take(i as int));
            lemma_chars_lt_irreflexive(a@);
        }
        NameOrder::Equal
    } else if i == la {
        proof {
            assert(a@.skip(i as int).len() == 0);
        }
        NameOrder::Less
    } else {
        proof {
            assert(b@.skip(i as int).len() == 0);
        }
        NameOrder::Greater
    }
}

/// The names of a sequence of entries, in order.
pub open spec fn entry_names(s: Seq<(&'static str, TypeKey)>) -> Seq<Seq<char>> {
    Seq::new(s.len(), |i: int| s[i].0@)
}

/// Entries are in strictly ascending order of their names.
pub open spec fn entries_sorted(s: Seq<(&'static str, TypeKey)>) -> bool {
    forall|i: int, j: int| 0 <= i < j < s.len() ==> chars_lt(#[trigger] s[i].0@, #[trigger] s[j].0@)
}

/// A position at which `k` is the name, where there is one.
pub open spec fn name_index(s: Seq<(&'static str, TypeKey)>, k: Seq<char>) -> int {
    choose|i: int| 0 <= i < s.len() && #[trigger] s[i].0@ == k
}

/// The map from names to keys that a sequence of entries stands for.
pub open spec fn entries_map(s: Seq<(&'static str, TypeKey)>) -> Map<Seq<char>, TypeKey> {
    Map::new(
        |k: Seq<char>| exists|i: int| 0 <= i < s.len() && #[trigger] s[i].0@ == k,
        |k: Seq<char>| s[name_index(s, k)].1,
    )
}

proof fn lemma_entries_map_at(s: Seq<(&'static str, TypeKey)>, n: int)
    requires
        entries_sorted(s),
        0 <= n < s.len(),
    ensures
        entries_map(s).contains_key(s[n].0@),
        entries_map(s)[s[n].0@] == s[n].1,
{
    let k = s[n].0@;
    assert(0 <= n < s.len() && s[n].0@ == k);
    let i = name_index(s, k);
    assert(entries_map(s).contains_key(k));
    assert(entries_map(s)[k] == s[i].1);
    if i != n {
        lemma_chars_lt_irreflexive(k);
        if i < n {
            assert(chars_lt(s[i].0@, s[n].0@));
        } else {
            assert(chars_lt(s[n].0@, s[i].0@));
        }
    }
}

/// An ordered table from names to type keys, with each name at most once.
///
/// The table is a sorted vector searched by halves rather than a
/// `BTreeMap<&str, TypeKey>`: vstd specifies `BTreeMap::insert` and
/// `BTreeMap::get` only for key types whose order it knows (`obeys_cmp`),
/// and it states no order for `str`, so such a map would prove nothing
/// about names. Here the order is `chars_lt`, and every operation is proved
/// against it.
#[derive(Debug)]
pub struct NameTable {
    entries: Vec<(&'static str, TypeKey)>,
}

impl View for NameTable {
    type V = Map<Seq<char>, TypeKey>;

    closed spec fn view(&self) -> Map<Seq<char>, TypeKey> {
        entries_map(self.entries@)
    }
}

impl NameTable {
    /// The table's names in ascending order.
    pub closed spec fn keys(&self) -> Seq<Seq<char>> {
        entry_names(self.entries@)
    }

    /// Well-formedness: the entries are strictly sorted by name.
    pub closed spec fn wf(&self) -> bool {
        entries_sorted(self.entries@)
    }

    /// The table lists each of its names once, in ascending order, and
    /// nothing else.
    pub proof fn lemma_keys(&self)
        requires
            self.wf(),
        ensures
            forall|i: int, j: int|
                0 <= i < j < self.keys().len() ==> chars_lt(
                    #[trigger] self.keys()[i],
                    #[trigger] self.keys()[j],
                ),
            forall|k: Seq<char>| self@.contains_key(k) <==> self.keys().contains(k),
            forall|i: int|
                0 <= i < self.keys().len() ==> self@.contains_key(#[trigger] self.keys()[i]),
            self@.dom().finite(),
            self@.dom().len() == self.keys().len(),
    {
        let s = self.entries@;
        assert forall|k: Seq<char>| self@.contains_key(k) <==> self.keys().contains(k) by {
            if self@.contains_key(k) {
                let i = choose|i: int| 0 <= i < s.len() && #[trigger] s[i].0@ == k;
                assert(self.keys()[i] == k);
            }
            if self.keys().contains(k) {
                let i = choose|i: int| 0 <= i < self.keys().len() && self.keys()[i] == k;
                assert(s[i].0@ == k);
            }
        }
        assert forall|i: int| 0 <= i < self.keys().len() implies self@.contains_key(
            #[trigger] self.keys()[i],
        ) by {
            lemma_entries_map_at(s, i);
        }
        assert(self.keys().no_duplicates()) by {
            assert forall|i: int, j: int|
                0 <= i < self.keys().len() && 0 <= j < self.keys().len() && i != j implies
                self.keys()[i] != self.keys()[j] by {
                lemma_chars_lt_irreflexive(self.keys()[i]);
                if i < j {
                    assert(chars_lt(s[i].0@, s[j].0@));
                } else {
                    assert(chars_lt(s[j].0@, s[i].0@));
                }
            }
        }
        assert(self@.dom() =~= self.keys().to_set());
        self.keys().unique_seq_to_set();
    }

    /// An empty table.
    pub fn new() -> (t: Self)
        ensures
            t.wf(),
            t@ == Map::<Seq<char>, TypeKey>::empty(),
            t.keys() == Seq::<Seq<char>>::empty(),
    {
        let t = NameTable { entries: Vec::new() };
        assert(t@ =~= Map::<Seq<char>, TypeKey>::empty());
        assert(t.keys() =~= Seq::<Seq<char>>::empty());
        t
    }

    /// The number of names in the table.
    pub fn len(&self) -> (n: usize)
        ensures
            n == self.keys().len(),
    {
        self.entries.len()
    }

    /// Binary search: the first position whose name is not below `name`,
    /// and whether the name there is `name` itself.
    fn find(&self, name: &str) -> (res: (usize, bool))
        requires
            self.wf(),
        ensures
            res.0 <= self.entries@.len(),
            res.1 ==> res.0 < self.entries@.len() && self.entries@[res.0 as int].0@ == name@,
            !res.1 ==> forall|j: int|
                0 <= j < res.0 ==> chars_lt(#[trigger] self.entries@[j].0@, name@),
            !res.1 ==> forall|j: int|
                res.0 <= j < self.entries@.len() ==> chars_lt(name@, #[trigger] self.entries@[j].0@),
    {
        let mut lo: usize = 0;
        let mut hi: usize = self.entries.len();
        while lo < hi
            invariant
                self.wf(),
                lo <= hi <= self.entries@.len(),
                forall|j: int| 0 <= j < lo ==> chars_lt(#[trigger] self.entries@[j].0@, name@),
                forall|j: int|
                    hi <= j < self.entries@.len() ==> chars_lt(name@, #[trigger] self.entries@[j].0@),
            decreases hi - lo,
        {
            let mid = lo + (hi - lo) / 2;
            let here = self.entries[mid].0;
            match compare_names(here, name) {
                NameOrder::Equal => {
                    return (mid, true);
                },
                NameOrder::Less => {
                    assert forall|j: int| 0 <= j < mid + 1 implies chars_lt(
                        #[trigger] self.entries@[j].0@,
                        name@,
                    ) by {
                        if j < mid {
                            lemma_chars_lt_transitive(
                                self.entries@[j].0@,
                                self.entries@[mid as int].0@,
                                name@,
                            );
                        }
                    }
                    lo = mid + 1;
                },
                NameOrder::Greater => {
                    assert forall|j: int| mid <= j < self.entries@.len() implies chars_lt(
                        name@,
                        #[trigger] self.entries@[j].0@,
                    ) by {
                        if j > mid {
                            lemma_chars_lt_transitive(
                                name@,
                                self.entries@[mid as int].0@,
                                self.entries@[j].0@,
                            );
                        }
                    }
                    hi = mid;
                },
            }
        }
        (lo, false)
    }

    /// The key recorded under `name`, if there is one.
    pub fn get(&self, name: &str) -> (res: Option<TypeKey>)
        requires
            self.wf(),
        ensures
            res == (if self@.contains_key(name@) {
                Some(self@[name@])
            } else {
                None::<TypeKey>
            }),
    {
        let (pos, found) = self.find(name);
        if found {
            proof {
                lemma_entries_map_at(self.entries@, pos as int);
            }
            Some(self.entries[pos].1)
        } else {
            proof {
                if self@.contains_key(name@) {
                    let s = self.entries@;
                    let i = choose|i: int| 0 <= i < s.len() && #[trigger] s[i].0@ == name@;
                    lemma_chars_lt_irreflexive(name@);
                    if i < pos {
                        assert(chars_lt(s[i].0@, name@));
                    } else {
                        assert(chars_lt(name@, s[i].0@));
                    }
                }
            }
            None
        }
    }

    /// Records `id` under `name`, replacing what was recorded there.
    pub fn insert(&mut self, name: &'static str, id: TypeKey)
        requires
            old(self).wf(),
        ensures
            final(self).wf(),
            final(self)@ == old(self)@.insert(name@, id),
            old(self)@.contains_key(name@) ==> final(self).keys() == old(self).keys(),
            !old(self)@.contains_key(name@) ==> final(self).keys().to_set() == old(
                self,
            ).keys().to_set().insert(name@),
    {
        let ghost s0 = self.entries@;
        let (pos, found) = self.find(name);
        if found {
            let here = self.entries[pos].0;
            self.entries[pos] = (here, id);
            let ghost s1 = self.entries@;
            assert(s1 =~= s0.update(pos as int, (here, id)));
            assert(entry_names(s1) =~= entry_names(s0));
            assert(entries_sorted(s1)) by {
                assert forall|i: int, j: int| 0 <= i < j < s1.len() implies chars_lt(
                    #[trigger] s1[i].0@,
                    #[trigger] s1[j].0@,
                ) by {
                    assert(s1[i].0@ == s0[i].0@);
                    assert(s1[j].0@ == s0[j].0@);
                }
            }
            proof {
                lemma_entries_map_at(s0, pos as int);
                self.lemma_map_after_update(s0, pos as int, name, id);
            }
        } else {
            self.entries.insert(pos, (name, id));
            let ghost s1 = self.entries@;
            assert(s1 =~= s0.insert(pos as int, (name, id)));
            assert(entries_sorted(s1)) by {
                assert forall|i: int, j: int| 0 <= i < j < s1.len() implies chars_lt(
                    #[trigger] s1[i].0@,
                    #[trigger] s1[j].0@,
                ) by {
                    if j < pos {
                        assert(s1[i] == s0[i] && s1[j] == s0[j]);
                    } else if j == pos {
                        assert(s1[i] == s0[i]);
                    } else if i < pos {
                        assert(s1[i] == s0[i] && s1[j] == s0[j - 1]);
                        lemma_chars_lt_transitive(s0[i].0@, name@, s0[j - 1].0@);
                    } else if i == pos {
                        assert(s1[j] == s0[j - 1]);
                    } else {
                        assert(s1[i] == s0[i - 1] && s1[j] == s0[j - 1]);
                    }
                }
            }
            proof {
                self.lemma_map_after_insert(s0, pos as int, name, id);
            }
        }
    }

    proof fn lemma_map_after_update(
        &self,
        s0: Seq<(&'static str, TypeKey)>,
        pos: int,
        name: &'static str,
        id: TypeKey,
    )
        requires
            entries_sorted(s0),
            0 <= pos < s0.len(),
            s0[pos].0@ == name@,
            self.entries@.len() == s0.len(),
            self.entries@[pos].1 == id,
            forall|i: int|
                0 <= i < s0.len() ==> (#[trigger] self.entries@[i]).0@ == s0[i].0@,
            forall|i: int|
                0 <= i < s0.len() && i != pos ==> (#[trigger] self.entries@[i]).1 == s0[i].1,
            self.wf(),
        ensures
            self@ == entries_map(s0).insert(name@, id),
    {
        let s1 = self.entries@;
        let m0 = entries_map(s0);
        assert forall|k: Seq<char>| #[trigger] self@.contains_key(k) <==> m0.insert(
            name@,
            id,
        ).contains_key(k) by {
            if self@.contains_key(k) {
                let i = choose|i: int| 0 <= i < s1.len() && #[trigger] s1[i].0@ == k;
                assert(s0[i].0@ == k);
            }
            if m0.contains_key(k) {
                let i = choose|i: int| 0 <= i < s0.len() && #[trigger] s0[i].0@ == k;
                assert(s1[i].0@ == k);
            }
            if k == name@ {
                assert(s1[pos].0@ == k);
            }
        }
        assert forall|k: Seq<char>| #[trigger] self@.contains_key(k) implies self@[k] == m0.insert(
            name@,
            id,
        )[k] by {
            let i = choose|i: int| 0 <= i < s1.len() && #[trigger] s1[i].0@ == k;
            lemma_entries_map_at(s1, i);
            assert(s0[i].0@ == k);
            lemma_entries_map_at(s0, i);
            if i == pos {
                assert(k == name@);
            } else {
                if k == name@ {
                    lemma_chars_lt_irreflexive(k);
                    if i < pos {
                        assert(chars_lt(s0[i].0@, s0[pos].0@));
                    } else {
                        assert(chars_lt(s0[pos].0@, s0[i].0@));
                    }
                }
            }
        }
        assert(self@ =~= m0.insert(name@, id));
    }

    proof fn lemma_map_after_insert(
        &self,
        s0: Seq<(&'static str, TypeKey)>,
        pos: int,
        name: &'static str,
        id: TypeKey,
    )
        requires
            entries_sorted(s0),
            0 <= pos <= s0.len(),
            self.entries@ == s0.insert(pos, (name, id)),
            forall|j: int| 0 <= j < pos ==> chars_lt(#[trigger] s0[j].0@, name@),
            forall|j: int| pos <= j < s0.len() ==> chars_lt(name@, #[trigger] s0[j].0@),
            self.wf(),
        ensures
            self@ == entries_map(s0).insert(name@, id),
            !entries_map(s0).contains_key(name@),
            self.keys().to_set() == entry_names(s0).to_set().insert(name@),
    {
        let s1 = self.entries@;
        let m0 = entries_map(s0);
        lemma_chars_lt_irreflexive(name@);
        if m0.contains_key(name@) {
            let i = choose|i: int| 0 <= i < s0.len() && #[trigger] s0[i].0@ == name@;
            if i < pos {
                assert(chars_lt(s0[i].0@, name@));
            } else {
                assert(chars_lt(name@, s0[i].0@));
            }
        }
        assert forall|k: Seq<char>| #[trigger] self@.contains_key(k) <==> m0.insert(
            name@,
            id,
        ).contains_key(k) by {
            if self@.contains_key(k) {
                let i = choose|i: int| 0 <= i < s1.len() && #[trigger] s1[i].0@ == k;
                if i < pos {
                    assert(s0[i] == s1[i]);
                } else if i > pos {
                    assert(s0[i - 1] == s1[i]);
                }
            }
            if m0.contains_key(k) {
                let i = choose|i: int| 0 <= i < s0.len() && #[trigger] s0[i].0@ == k;
                if i < pos {
                    assert(s1[i] == s0[i]);
                } else {
                    assert(s1[i + 1] == s0[i]);
                }
            }
            if k == name@ {
                assert(s1[pos].0@ == k);
            }
        }
        assert forall|k: Seq<char>| #[trigger] self@.contains_key(k) implies self@[k] == m0.insert(
            name@,
            id,
        )[k] by {
            let i = choose|i: int| 0 <= i < s1.len() && #[trigger] s1[i].0@ == k;
            lemma_entries_map_at(s1, i);
            if i < pos {
                assert(s0[i] == s1[i]);
                lemma_entries_map_at(s0, i);
            } else if i > pos {
                assert(s0[i - 1] == s1[i]);
                lemma_entries_map_at(s0, i - 1);
            }
        }
        assert(self@ =~= m0.insert(name@, id));
        let n0 = entry_names(s0);
        let n1 = self.keys();
        assert forall|k: Seq<char>| #[trigger] n1.to_set().contains(k) <==> n0.to_set().insert(
            name@,
        ).contains(k) by {
            if n1.contains(k) {
                let i = choose|i: int| 0 <= i < n1.len() && n1[i] == k;
                if i < pos {
                    assert(n0[i] == k);
                } else if i > pos {
                    assert(n0[i - 1] == k);
                }
            }
            if n0.contains(k) {
                let i = choose|i: int| 0 <= i < n0.len() && n0[i] == k;
                if i < pos {
                    assert(n1[i] == k);
                } else {
                    assert(n1[i + 1] == k);
                }
            }
            if k == name@ {
                assert(n1[pos] == k);
            }
        }
        assert(n1.to_set() =~= n0.to_set().insert(name@));
    }

    /// The names in ascending order.
    pub fn names(&self) -> (res: Vec<&'static str>)
        requires
            self.wf(),
        ensures
            res@.len() == self.keys().len(),
            forall|i: int| 0 <= i < res@.len() ==> (#[trigger] res@[i])@ == self.keys()[i],
    {
        let mut res: Vec<&'static str> = Vec::new();
        let n = self.entries.len();
        for i in 0..n
            invariant
                n == self.entries@.len(),
                res@.len() == i,
                forall|j: int| 0 <= j < i ==> (#[trigger] res@[j])@ == self.keys()[j],
        {
            res.push(self.entries[i].0);
        }
        res
    }

    /// The keys in the order of their names.
    pub fn keys_in_order(&self) -> (res: Vec<TypeKey>)
        requires
            self.wf(),
        ensures
            res@.len() == self.keys().len(),
            forall|i: int| 0 <= i < res@.len() ==> #[trigger] res@[i] == self@[self.keys()[i]],
    {
        let mut res: Vec<TypeKey> = Vec::new();
        let n = self.entries.len();
        for i in 0..n
            invariant
                self.wf(),
                n == self.entries@.len(),
                res@.len() == i,
                forall|j: int| 0 <= j < i ==> #[trigger] res@[j] == self@[self.keys()[j]],
        {
            proof {
                lemma_entries_map_at(self.entries@, i as int);
            }
            res.push(self.entries[i].1);
        }
        res
    }
}

} // verus!
