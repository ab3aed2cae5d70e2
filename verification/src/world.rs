//! World-level bookkeeping: region ids, the starving-region list, and
//! population totals.

use vstd::multiset::Multiset;
use vstd::prelude::*;
use vstd::string::StrSliceExecFns;

verus! {

/// Stable id of a region entity.
#[derive(Debug, Clone, Copy, PartialEq, Eq, Structural, PartialOrd, Ord, Hash)]
pub struct EntityId(pub u64);

impl EntityId {
    pub fn raw(self) -> (r: u64)
        ensures
            r == self.0,
    {
        self.0
    }
}

/// The views of a list of names.
pub open spec fn name_views(s: Seq<String>) -> Seq<Seq<char>> {
    s.map_values(|x: String| x@)
}

/// The list with every repeated name dropped, keeping first occurrences
/// in order.
pub open spec fn spec_dedup_names(s: Seq<String>) -> Seq<String>
    decreases s.len(),
{
    if s.len() == 0 {
        s
    } else {
        let rest = spec_dedup_names(s.drop_last());
        if name_views(rest).contains(s.last()@) {
            rest
        } else {
            rest.push(s.last())
        }
    }
}

/// Deduplication gives a list without repeated names that holds exactly
/// the names of the given list.
pub proof fn lemma_dedup_names(s: Seq<String>)
    ensures
        name_views(spec_dedup_names(s)).no_duplicates(),
        forall|v: Seq<char>|
            name_views(spec_dedup_names(s)).contains(v) <==> name_views(s).contains(v),
        spec_dedup_names(s).len() <= s.len(),
    decreases s.len(),
{
    if s.len() > 0 {
        lemma_dedup_names(s.drop_last());
        let rest = spec_dedup_names(s.drop_last());
        let whole = spec_dedup_names(s);
        assert forall|v: Seq<char>|
            name_views(whole).contains(v) <==> name_views(s).contains(v) by {
            if name_views(whole).contains(v) {
                let w = choose|w: int|
                    0 <= w < name_views(whole).len() && name_views(whole)[w] == v;
                if w < rest.len() {
                    assert(name_views(rest)[w] == v);
                    assert(name_views(rest).contains(v));
                    assert(name_views(s.drop_last()).contains(v));
                    let w2 = choose|w2: int|
                        0 <= w2 < name_views(s.drop_last()).len() && name_views(s.drop_last())[w2]
                            == v;
                    assert(s.drop_last()[w2] == s[w2]);
                    assert(name_views(s)[w2] == v);
                } else {
                    assert(whole[w] == s.last());
                    assert(name_views(s)[s.len() - 1] == v);
                }
            }
            if name_views(s).contains(v) {
                let w = choose|w: int| 0 <= w < name_views(s).len() && name_views(s)[w] == v;
                if w == s.len() - 1 {
                    if name_views(rest).contains(v) {
                        let w2 = choose|w2: int|
                            0 <= w2 < name_views(rest).len() && name_views(rest)[w2] == v;
                        assert(name_views(whole)[w2] == v);
                    } else {
                        assert(name_views(whole)[whole.len() - 1] == v);
                    }
                } else {
                    assert(name_views(s.drop_last())[w] == s.drop_last()[w]@);
                    assert(name_views(s.drop_last())[w] == v);
                    assert(name_views(s.drop_last()).contains(v));
                    assert(name_views(rest).contains(v));
                    let w2 = choose|w2: int|
                        0 <= w2 < name_views(rest).len() && name_views(rest)[w2] == v;
                    if name_views(rest).contains(s.last()@) {
                        assert(name_views(whole)[w2] == v);
                    } else {
                        assert(name_views(whole)[w2] == v);
                    }
                }
            }
        }
        if !name_views(rest).contains(s.last()@) {
            assert(name_views(whole).no_duplicates()) by {
                assert forall|p: int, q: int|
                    0 <= p < q < name_views(whole).len() implies name_views(whole)[p]
                    != name_views(whole)[q] by {
                    if q == whole.len() - 1 {
                        assert(name_views(whole)[p] == name_views(rest)[p]);
                        assert(name_views(rest).contains(name_views(rest)[p]));
                    } else {
                        assert(name_views(whole)[p] == name_views(rest)[p]);
                        assert(name_views(whole)[q] == name_views(rest)[q]);
                    }
                }
            }
        } else {
            assert(name_views(whole) =~= name_views(rest));
        }
    }
}

/// Scratch state the systems share: which regions starved this tick.
#[derive(Debug, Clone)]
pub struct BookkeepingState {
    pub starving_regions: Vec<String>,
}

impl Default for BookkeepingState {
    fn default() -> (r: Self)
        ensures
            r.starving_regions@ =~= Seq::<String>::empty(),
    {
        Self { starving_regions: Vec::new() }
    }
}

impl BookkeepingState {
    /// Forget last tick's starving regions.
    pub fn clear(&mut self)
        ensures
            final (self).starving_regions@ =~= Seq::<String>::empty(),
    {
        self.starving_regions.clear();
    }

    /// Record a region as starving this tick.
    pub fn note_starving(&mut self, name: String)
        ensures
            final (self).starving_regions@ == old(self).starving_regions@.push(name),
    {
        self.starving_regions.push(name);
    }

    /// Sort the starving list by name and drop repeated names: the
    /// tidy, deterministic form the end of a tick leaves behind.
    pub fn finalize_starving(&mut self)
        ensures
            name_views(final (self).starving_regions@).no_duplicates(),
            spec_sorted_names(final (self).starving_regions@),
            forall|v: Seq<char>|
                name_views(final (self).starving_regions@).contains(v) <==> name_views(
                    old(self).starving_regions@,
                ).contains(v),
    {
        sort_names(&mut self.starving_regions);
        proof {
            lemma_dedup_keeps_sorted(self.starving_regions@);
            lemma_dedup_names(self.starving_regions@);
        }
        self.dedup_starving();
    }

    /// Drop repeated names, keeping first occurrences in order.
    #[verifier::loop_isolation(false)]
    pub fn dedup_starving(&mut self)
        ensures
            final (self).starving_regions@ == spec_dedup_names(old(self).starving_regions@),
            name_views(final (self).starving_regions@).no_duplicates(),
    {
        let mut result: Vec<String> = Vec::new();
        let mut i: usize = 0;
        while i < self.starving_regions.len()
            invariant
                *self == *old(self),
                0 <= i <= self.starving_regions.len(),
                result@ == spec_dedup_names(self.starving_regions@.subrange(0, i as int)),
            decreases self.starving_regions.len() - i,
        {
            let ghost prefix = self.starving_regions@.subrange(0, i as int);
            let name = &self.starving_regions[i];
            let already = contains_name(&result, name);
            proof {
                assert(self.starving_regions@.subrange(0, i as int + 1).drop_last() =~= prefix);
                assert(self.starving_regions@.subrange(0, i as int + 1).last() == self
                    .starving_regions@[i as int]);
            }
            if !already {
                result.push(self.starving_regions[i].clone());
            }
            i += 1;
        }
        proof {
            assert(self.starving_regions@.subrange(0, self.starving_regions@.len() as int) =~= self
                .starving_regions@);
            lemma_dedup_names(self.starving_regions@);
        }
        self.starving_regions = result;
    }
}

/// Whether a name with this view is in the list.
#[verifier::loop_isolation(false)]
fn contains_name(v: &Vec<String>, x: &String) -> (r: bool)
    ensures
        r == name_views(v@).contains(x@),
{
    let mut i: usize = 0;
    while i < v.len()
        invariant
            0 <= i <= v.len(),
            forall|j: int| 0 <= j < i ==> name_views(v@)[j] != x@,
        decreases v.len() - i,
    {
        if v[i] == *x {
            proof {
                assert(name_views(v@)[i as int] == x@);
            }
            return true;
        }
        i += 1;
    }
    proof {
        assert(!name_views(v@).contains(x@)) by {
            if name_views(v@).contains(x@) {
                let w = choose|w: int| 0 <= w < name_views(v@).len() && name_views(v@)[w] == x@;
            }
        }
    }
    false
}

/// Lexicographic order on texts, by character code point.  UTF-8 byte
/// order agrees with it, so this is the order `str` comparison gives.
pub open spec fn lex_le(a: Seq<char>, b: Seq<char>) -> bool
    decreases a.len(),
{
    if a.len() == 0 {
        true
    } else if b.len() == 0 {
        false
    } else if a.first() as u32 != b.first() as u32 {
        (a.first() as u32) < (b.first() as u32)
    } else {
        lex_le(a.drop_first(), b.drop_first())
    }
}

/// The list is sorted by name.
pub open spec fn spec_sorted_names(s: Seq<String>) -> bool {
    forall|i: int, j: int| 0 <= i < j < s.len() ==> lex_le(#[trigger] s[i]@, #[trigger] s[j]@)
}

/// The lexicographic order is total.
pub proof fn lemma_lex_total(a: Seq<char>, b: Seq<char>)
    ensures
        lex_le(a, b) || lex_le(b, a),
    decreases a.len(),
{
    if a.len() > 0 && b.len() > 0 && a.first() as u32 == b.first() as u32 {
        lemma_lex_total(a.drop_first(), b.drop_first());
    }
}

/// The lexicographic order is transitive.
pub proof fn lemma_lex_trans(a: Seq<char>, b: Seq<char>, c: Seq<char>)
    requires
        lex_le(a, b),
        lex_le(b, c),
    ensures
        lex_le(a, c),
    decreases a.len(),
{
    if a.len() > 0 && b.len() > 0 && c.len() > 0 && a.first() as u32 == b.first() as u32
        && b.first() as u32 == c.first() as u32 {
        lemma_lex_trans(a.drop_first(), b.drop_first(), c.drop_first());
    }
}

/// Whether one text comes at or before another in lexicographic order.
#[verifier::loop_isolation(false)]
fn str_lex_le(a: &str, b: &str) -> (r: bool)
    ensures
        r == lex_le(a@, b@),
{
    let a_len = a.unicode_len();
    let b_len = b.unicode_len();
    proof {
        assert(a@.skip(0) =~= a@);
        assert(b@.skip(0) =~= b@);
    }
    let mut i: usize = 0;
    loop
        invariant
            0 <= i <= a_len,
            i <= b_len,
            a_len == a@.len(),
            b_len == b@.len(),
            lex_le(a@, b@) == lex_le(a@.skip(i as int), b@.skip(i as int)),
        decreases a_len - i,
    {
        if i >= a_len {
            return true;
        }
        if i >= b_len {
            return false;
        }
        let ca = a.get_char(i);
        let cb = b.get_char(i);
        let code_a = ca as u32;
        let code_b = cb as u32;
        if code_a != code_b {
            return code_a < code_b;
        }
        proof {
            assert(a@.skip(i as int).drop_first() =~= a@.skip(i as int + 1));
            assert(b@.skip(i as int).drop_first() =~= b@.skip(i as int + 1));
        }
        i += 1;
    }
}

/// Sort a list of names lexicographically, keeping exactly the same
/// names with their repetitions.
#[verifier::loop_isolation(false)]
fn sort_names(v: &mut Vec<String>)
    ensures
        spec_sorted_names(final (v)@),
        final (v)@.to_multiset() == old(v)@.to_multiset(),
        forall|vw: Seq<char>|
            name_views(final (v)@).contains(vw) <==> name_views(old(v)@).contains(vw),
{
    broadcast use vstd::seq_lib::group_to_multiset_ensures;
    broadcast use vstd::seq_lib::to_multiset_build;
    broadcast use vstd::multiset::group_multiset_axioms;

    let mut result: Vec<String> = Vec::new();
    let mut i: usize = 0;
    while i < v.len()
        invariant
            *v == *old(v),
            0 <= i <= v.len(),
            spec_sorted_names(result@),
            result@.to_multiset() == v@.subrange(0, i as int).to_multiset(),
        decreases v.len() - i,
    {
        let x = v[i].clone();
        let ghost before = result@;
        let mut p: usize = 0;
        while p < result.len() && str_lex_le(result[p].as_str(), x.as_str())
            invariant
                0 <= p <= result.len(),
                forall|k: int| 0 <= k < p ==> lex_le(#[trigger] result@[k]@, x@),
            decreases result.len() - p,
        {
            p += 1;
        }
        proof {
            if p < before.len() {
                assert(!lex_le(before[p as int]@, x@));
                lemma_lex_total(before[p as int]@, x@);
            }
            assert forall|k: int| p <= k < before.len() implies lex_le(
                x@,
                #[trigger] before[k]@,
            ) by {
                if k > p {
                    lemma_lex_trans(x@, before[p as int]@, before[k]@);
                }
            }
        }
        result.insert(p, x);
        proof {
            let after = result@;
            assert forall|m: int, n: int|
                0 <= m < n < after.len() implies lex_le(#[trigger] after[m]@, #[trigger] after[n]@) by {
                let m0 = if m < p { m } else { m - 1 };
                let n0 = if n <= p { n } else { n - 1 };
                if m == p {
                    assert(after[n] == before[n - 1]);
                } else if n == p {
                    assert(after[m] == before[m]);
                } else {
                    assert(after[m] == before[m0]);
                    assert(after[n] == before[n0]);
                }
            }
            assert(before.insert(p as int, v@[i as int]) =~= before.subrange(0, p as int) + seq![
                v@[i as int],
            ] + before.subrange(p as int, before.len() as int));
            assert(before =~= before.subrange(0, p as int) + before.subrange(
                p as int,
                before.len() as int,
            ));
            vstd::seq_lib::lemma_multiset_commutative(
                before.subrange(0, p as int),
                before.subrange(p as int, before.len() as int),
            );
            vstd::seq_lib::lemma_multiset_commutative(
                before.subrange(0, p as int) + seq![v@[i as int]],
                before.subrange(p as int, before.len() as int),
            );
            vstd::seq_lib::lemma_multiset_commutative(
                before.subrange(0, p as int),
                seq![v@[i as int]],
            );
            assert(seq![v@[i as int]] =~= Seq::<String>::empty().push(v@[i as int]));
            assert(seq![v@[i as int]].to_multiset() =~= Multiset::<String>::empty().insert(
                v@[i as int],
            ));
            assert(v@.subrange(0, i as int + 1) =~= v@.subrange(0, i as int).push(v@[i as int]));
            assert(after.to_multiset() =~= v@.subrange(0, i as int + 1).to_multiset());
        }
        i += 1;
    }
    proof {
        assert(v@.subrange(0, v@.len() as int) =~= v@);
        assert forall|vw: Seq<char>|
            name_views(result@).contains(vw) <==> name_views(v@).contains(vw) by {
            if name_views(result@).contains(vw) {
                let w = choose|w: int|
                    0 <= w < name_views(result@).len() && name_views(result@)[w] == vw;
                assert(result@.to_multiset().contains(result@[w]));
                assert(v@.contains(result@[w]));
                let w2 = choose|w2: int| 0 <= w2 < v@.len() && v@[w2] == result@[w];
                assert(name_views(v@)[w2] == vw);
            }
            if name_views(v@).contains(vw) {
                let w = choose|w: int| 0 <= w < name_views(v@).len() && name_views(v@)[w] == vw;
                assert(v@.to_multiset().contains(v@[w]));
                assert(result@.contains(v@[w]));
                let w2 = choose|w2: int| 0 <= w2 < result@.len() && result@[w2] == v@[w];
                assert(name_views(result@)[w2] == vw);
            }
        }
    }
    *v = result;
}

/// Dropping repeated names keeps a sorted list sorted.
proof fn lemma_dedup_keeps_sorted(s: Seq<String>)
    requires
        spec_sorted_names(s),
    ensures
        spec_sorted_names(spec_dedup_names(s)),
    decreases s.len(),
{
    if s.len() > 0 {
        assert(spec_sorted_names(s.drop_last()));
        lemma_dedup_keeps_sorted(s.drop_last());
        lemma_dedup_names(s.drop_last());
        let rest = spec_dedup_names(s.drop_last());
        let whole = spec_dedup_names(s);
        if !name_views(rest).contains(s.last()@) {
            assert forall|m: int, n: int|
                0 <= m < n < whole.len() implies lex_le(#[trigger] whole[m]@, #[trigger] whole[n]@) by {
                if n == whole.len() - 1 {
                    assert(name_views(rest)[m] == rest[m]@);
                    assert(name_views(rest).contains(rest[m]@));
                    assert(name_views(s.drop_last()).contains(rest[m]@));
                    let w = choose|w: int|
                        0 <= w < name_views(s.drop_last()).len() && name_views(s.drop_last())[w]
                            == rest[m]@;
                    assert(s.drop_last()[w]@ == rest[m]@);
                    assert(lex_le(s[w]@, s[s.len() - 1]@));
                }
            }
        }
    }
}

/// The sum of a sequence of counts.
pub open spec fn spec_sum(s: Seq<u64>) -> int
    decreases s.len(),
{
    if s.len() == 0 {
        0
    } else {
        spec_sum(s.drop_last()) + s.last()
    }
}

/// Total population over the per-region citizen counts.
#[verifier::loop_isolation(false)]
pub fn total_population(citizens: &Vec<u64>) -> (total: u64)
    requires
        spec_sum(citizens@) <= u64::MAX,
    ensures
        total == spec_sum(citizens@),
{
    let mut total: u64 = 0;
    let mut i: usize = 0;
    while i < citizens.len()
        invariant
            0 <= i <= citizens.len(),
            total == spec_sum(citizens@.subrange(0, i as int)),
        decreases citizens.len() - i,
    {
        proof {
            assert(citizens@.subrange(0, i as int + 1).drop_last() =~= citizens@.subrange(
                0,
                i as int,
            ));
            lemma_sum_prefix_bound(citizens@, i as int + 1);
        }
        total = total + citizens[i];
        i += 1;
    }
    proof {
        assert(citizens@.subrange(0, citizens@.len() as int) =~= citizens@);
    }
    total
}

/// Every prefix sum of non-negative counts is at most the whole sum.
proof fn lemma_sum_prefix_bound(s: Seq<u64>, n: int)
    requires
        0 <= n <= s.len(),
    ensures
        spec_sum(s.subrange(0, n)) <= spec_sum(s),
    decreases s.len() - n,
{
    if n == s.len() {
        assert(s.subrange(0, n) =~= s);
    } else {
        lemma_sum_prefix_bound(s, n + 1);
        assert(s.subrange(0, n + 1).drop_last() =~= s.subrange(0, n));
        assert(s.subrange(0, n + 1).last() == s[n]);
    }
}

} // verus!
