//! Usage statistics of one wallet: totals, today's uploads, and its most
//! used file types.

use vstd::prelude::*;
use crate::model::{FileRecord, FileTypeUsage, FileView, UserStats, file_views};
use crate::store::{Store, StoreError, now_micros, owned_by};

verus! {

/// Microseconds in a day.
pub const DAY_MICROS: i64 = 86_400_000_000;

/// How many ranked file types a statistics report holds at most.
pub const MAX_RANKED_TYPES: usize = 10;

/// The first instant of the UTC day that holds `now`.
pub open spec fn day_start(now: i64) -> int {
    now - (now as int) % (DAY_MICROS as int)
}

/// The summed size of a sequence of files.
pub open spec fn size_sum(s: Seq<FileView>) -> int
    decreases s.len(),
{
    if s.len() == 0 {
        0
    } else {
        size_sum(s.drop_last()) + s.last().size
    }
}

/// The files uploaded in the day that begins at `start`.
pub open spec fn uploaded_within_day(s: Seq<FileView>, start: int) -> Seq<FileView>
    decreases s.len(),
{
    if s.len() == 0 {
        seq![]
    } else {
        let rest = uploaded_within_day(s.drop_last(), start);
        if start <= s.last().uploaded_at < start + DAY_MICROS {
            rest.push(s.last())
        } else {
            rest
        }
    }
}

/// How many files have type `t`.
pub open spec fn count_type(s: Seq<FileView>, t: Seq<char>) -> int
    decreases s.len(),
{
    if s.len() == 0 {
        0
    } else {
        count_type(s.drop_last(), t) + if s.last().file_type == t {
            1int
        } else {
            0int
        }
    }
}

/// The summed size of the files of type `t`.
pub open spec fn size_of_type(s: Seq<FileView>, t: Seq<char>) -> int
    decreases s.len(),
{
    if s.len() == 0 {
        0
    } else {
        size_of_type(s.drop_last(), t) + if s.last().file_type == t {
            s.last().size as int
        } else {
            0int
        }
    }
}

/// The file types that occur, each once, in order of first occurrence.
pub open spec fn distinct_types(s: Seq<FileView>) -> Seq<Seq<char>>
    decreases s.len(),
{
    if s.len() == 0 {
        seq![]
    } else {
        let rest = distinct_types(s.drop_last());
        if rest.contains(s.last().file_type) {
            rest
        } else {
            rest.push(s.last().file_type)
        }
    }
}

/// Whether `r` ranks the file types of `s` by how many files have them:
/// as many entries as there are types, up to the limit; each entry a type
/// of `s` with its count and summed size; no type twice; counts never
/// increasing; and no type left out with a higher count than one ranked.
/// Which of several types with equal counts is ranked first is open.
pub open spec fn is_type_ranking(s: Seq<FileView>, r: Seq<FileTypeUsage>) -> bool {
    let ts = distinct_types(s);
    &&& r.len() == if ts.len() < MAX_RANKED_TYPES {
        ts.len()
    } else {
        MAX_RANKED_TYPES as nat
    }
    &&& forall|i: int|
        0 <= i < r.len() ==> ts.contains(#[trigger] r[i].file_type@) && r[i].count == count_type(
            s,
            r[i].file_type@,
        ) && r[i].total_size == size_of_type(s, r[i].file_type@)
    &&& forall|i: int, j: int|
        0 <= i < j < r.len() ==> r[i].file_type@ != r[j].file_type@ && r[i].count >= r[j].count
    &&& forall|t: Seq<char>, i: int|
        #![trigger ts.contains(t), r[i]]
        ts.contains(t) && 0 <= i < r.len() && (forall|j: int|
            0 <= j < r.len() ==> r[j].file_type@ != t) ==> count_type(s, t) <= r[i].count
}

proof fn lemma_prefix_sum(s: Seq<FileView>, i: int)
    requires
        0 <= i < s.len(),
    ensures
        s.take(i + 1).drop_last() == s.take(i),
        s.take(i + 1).last() == s[i],
{
    assert(s.take(i + 1).drop_last() =~= s.take(i));
}

proof fn lemma_sum_nonneg(s: Seq<FileView>)
    requires
        forall|k: int| 0 <= k < s.len() ==> s[k].size >= 0,
    ensures
        size_sum(s) >= 0,
    decreases s.len(),
{
    if s.len() > 0 {
        lemma_sum_nonneg(s.drop_last());
    }
}

proof fn lemma_count_nonneg(s: Seq<FileView>, t: Seq<char>)
    ensures
        count_type(s, t) >= 0,
    decreases s.len(),
{
    if s.len() > 0 {
        lemma_count_nonneg(s.drop_last(), t);
    }
}

proof fn lemma_sum_monotone(s: Seq<FileView>, i: int)
    requires
        0 <= i <= s.len(),
        forall|k: int| 0 <= k < s.len() ==> s[k].size >= 0,
    ensures
        0 <= size_sum(s.take(i)) <= size_sum(s),
    decreases s.len() - i,
{
    if i < s.len() {
        lemma_prefix_sum(s, i);
        lemma_sum_monotone(s, i + 1);
        lemma_sum_nonneg(s.take(i));
    } else {
        assert(s.take(i) =~= s);
        lemma_sum_nonneg(s);
    }
}

proof fn lemma_type_bounds(s: Seq<FileView>, t: Seq<char>)
    requires
        forall|k: int| 0 <= k < s.len() ==> s[k].size >= 0,
    ensures
        0 <= count_type(s, t) <= s.len(),
        0 <= size_of_type(s, t) <= size_sum(s),
    decreases s.len(),
{
    if s.len() > 0 {
        lemma_type_bounds(s.drop_last(), t);
    }
}

proof fn lemma_distinct_types(s: Seq<FileView>)
    ensures
        forall|i: int, j: int|
            0 <= i < j < distinct_types(s).len() ==> distinct_types(s)[i] != distinct_types(s)[j],
        forall|i: int|
            0 <= i < distinct_types(s).len() ==> count_type(s, #[trigger] distinct_types(s)[i]) > 0,
    decreases s.len(),
{
    if s.len() > 0 {
        let p = s.drop_last();
        lemma_distinct_types(p);
        let t = s.last().file_type;
        lemma_count_nonneg(p, t);
        assert forall|i: int|
            0 <= i < distinct_types(s).len() implies count_type(s, #[trigger] distinct_types(s)[i])
            > 0 by {
            if i < distinct_types(p).len() {
                assert(count_type(p, distinct_types(p)[i]) > 0);
            }
        }
    }
}

/// The statistics of a wallet at time `now`: its account's counters, what
/// its files uploaded within the current UTC day add up to,
/// and its most used file types.
pub open spec fn stats_of(
    s: Seq<FileView>,
    total_files: i64,
    total_storage: i64,
    now: i64,
    st: UserStats,
) -> bool {
    let today = uploaded_within_day(s, day_start(now));
    &&& st.total_files == total_files
    &&& st.total_storage == total_storage
    &&& st.files_uploaded_today == today.len()
    &&& st.storage_used_today == size_sum(today)
    &&& is_type_ranking(s, st.most_used_file_types@)
}

/// Sums the sizes of a wallet's files; `None` where the sum leaves `i64`.
fn total_size(mine: &Vec<FileRecord>) -> (r: Option<i64>)
    requires
        forall|k: int| 0 <= k < mine@.len() ==> mine@[k].size >= 0,
    ensures
        match r {
            Some(v) => v == size_sum(file_views(mine@)),
            None => size_sum(file_views(mine@)) > i64::MAX,
        },
{
    let ghost o = file_views(mine@);
    let mut total: i64 = 0;
    let mut i: usize = 0;
    while i < mine.len()
        invariant
            i <= mine.len(),
            o == file_views(mine@),
            forall|k: int| 0 <= k < o.len() ==> o[k].size >= 0,
            total == size_sum(o.take(i as int)),
        decreases mine.len() - i,
    {
        proof {
            lemma_prefix_sum(o, i as int);
        }
        if total > i64::MAX - mine[i].size {
            proof {
                lemma_sum_monotone(o, i + 1);
            }
            return None;
        }
        total = total + mine[i].size;
        i = i + 1;
    }
    assert(o.take(i as int) =~= o);
    Some(total)
}

/// Counts and sums the files uploaded in the UTC day that holds `now`.
fn today_usage(mine: &Vec<FileRecord>, now: i64) -> (r: (i64, i64))
    requires
        forall|k: int| 0 <= k < mine@.len() ==> mine@[k].size >= 0,
        mine@.len() <= i64::MAX,
        size_sum(file_views(mine@)) <= i64::MAX,
    ensures
        r.0 == uploaded_within_day(file_views(mine@), day_start(now)).len(),
        r.1 == size_sum(uploaded_within_day(file_views(mine@), day_start(now))),
{
    let ghost o = file_views(mine@);
    let ghost start = day_start(now);
    let m: i64 = match now.checked_rem_euclid(DAY_MICROS) {
        Some(m) => m,
        None => 0,
    };
    assert(m == (now as int) % (DAY_MICROS as int));
    let start_wide: i128 = now as i128 - m as i128;
    let end_wide: i128 = start_wide + DAY_MICROS as i128;
    let mut count: i64 = 0;
    let mut sum: i64 = 0;
    let mut i: usize = 0;
    while i < mine.len()
        invariant
            i <= mine.len(),
            o == file_views(mine@),
            start_wide == start,
            end_wide == start + DAY_MICROS,
            forall|k: int| 0 <= k < o.len() ==> o[k].size >= 0,
            o.len() <= i64::MAX,
            size_sum(o) <= i64::MAX,
            count == uploaded_within_day(o.take(i as int), start).len(),
            count <= i,
            sum == size_sum(uploaded_within_day(o.take(i as int), start)),
            sum <= size_sum(o.take(i as int)),
        decreases mine.len() - i,
    {
        proof {
            lemma_prefix_sum(o, i as int);
            lemma_sum_monotone(o, i + 1);
        }
        proof {
            let u = uploaded_within_day(o.take(i as int), start);
            assert(u.push(o[i as int]).drop_last() =~= u);
        }
        if mine[i].uploaded_at as i128 >= start_wide && (mine[i].uploaded_at as i128) < end_wide {
            count = count + 1;
            sum = sum + mine[i].size;
        }
        i = i + 1;
    }
    assert(o.take(i as int) =~= o);
    (count, sum)
}

/// Groups a wallet's files by type, in order of first occurrence, with
/// each type's count and summed size.
fn group_by_type(mine: &Vec<FileRecord>) -> (r: Vec<FileTypeUsage>)
    requires
        forall|k: int| 0 <= k < mine@.len() ==> mine@[k].size >= 0,
        mine@.len() <= i64::MAX,
        size_sum(file_views(mine@)) <= i64::MAX,
    ensures
        r@.len() == distinct_types(file_views(mine@)).len(),
        forall|j: int|
            0 <= j < r@.len() ==> (#[trigger] r@[j]).file_type@ == distinct_types(
                file_views(mine@),
            )[j] && r@[j].count == count_type(file_views(mine@), r@[j].file_type@)
                && r@[j].total_size == size_of_type(file_views(mine@), r@[j].file_type@),
{
    let ghost o = file_views(mine@);
    let mut groups: Vec<FileTypeUsage> = Vec::new();
    let mut i: usize = 0;
    while i < mine.len()
        invariant
            i <= mine.len(),
            o == file_views(mine@),
            forall|k: int| 0 <= k < o.len() ==> o[k].size >= 0,
            o.len() <= i64::MAX,
            size_sum(o) <= i64::MAX,
            groups@.len() == distinct_types(o.take(i as int)).len(),
            forall|j: int|
                0 <= j < groups@.len() ==> (#[trigger] groups@[j]).file_type@ == distinct_types(
                    o.take(i as int),
                )[j] && groups@[j].count == count_type(o.take(i as int), groups@[j].file_type@)
                    && groups@[j].total_size == size_of_type(
                    o.take(i as int),
                    groups@[j].file_type@,
                ),
        decreases mine.len() - i,
    {
        let ghost p = o.take(i as int);
        let ghost q = o.take(i + 1);
        let ghost t = o[i as int].file_type;
        proof {
            lemma_prefix_sum(o, i as int);
            lemma_sum_monotone(o, i + 1);
            lemma_type_bounds(q, t);
        }
        let slot = find_type(&groups, &mine[i].file_type);
        let ghost g0 = groups@;
        if let Some(j) = slot {
            let g = FileTypeUsage {
                file_type: groups[j].file_type.clone(),
                count: groups[j].count + 1,
                total_size: groups[j].total_size + mine[i].size,
            };
            groups.set(j, g);
            proof {
                lemma_distinct_types(p);
                assert(distinct_types(p)[j as int] == t);
                assert(distinct_types(q) == distinct_types(p));
                assert forall|jj: int| 0 <= jj < groups@.len() implies (#[trigger] groups@[jj]).file_type@
                    == distinct_types(q)[jj] && groups@[jj].count == count_type(
                    q,
                    groups@[jj].file_type@,
                ) && groups@[jj].total_size == size_of_type(q, groups@[jj].file_type@) by {
                    if jj != j {
                        assert(groups@[jj] == g0[jj]);
                    }
                }
            }
        } else {
            groups.push(
                FileTypeUsage { file_type: mine[i].file_type.clone(), count: 1, total_size: mine[i].size },
            );
            proof {
                assert forall|k: int| 0 <= k < distinct_types(p).len() implies distinct_types(p)[k]
                    != t by {
                    assert(g0[k].file_type@ == distinct_types(p)[k]);
                }
                assert(!distinct_types(p).contains(t));
                assert(distinct_types(q) == distinct_types(p).push(t));
                assert forall|jj: int| 0 <= jj < groups@.len() implies (#[trigger] groups@[jj]).file_type@
                    == distinct_types(q)[jj] && groups@[jj].count == count_type(
                    q,
                    groups@[jj].file_type@,
                ) && groups@[jj].total_size == size_of_type(q, groups@[jj].file_type@) by {
                    if jj < g0.len() {
                        assert(groups@[jj] == g0[jj]);
                    } else {
                        lemma_type_zero(p, t);
                    }
                }
            }
        }
        i = i + 1;
    }
    assert(o.take(i as int) =~= o);
    groups
}

/// Inserting `g` at `pi`, after every entry with at least its count and
/// before every entry with less, keeps the entries ordered by count,
/// distinct in type, and traced to the groups they came from.
proof fn lemma_insert_ranked(
    s0: Seq<FileTypeUsage>,
    idx0: Seq<int>,
    pos0: Seq<int>,
    g: FileTypeUsage,
    pi: int,
    groups: Seq<FileTypeUsage>,
    gi: int,
)
    requires
        0 <= gi < groups.len(),
        0 <= pi <= s0.len(),
        g == groups[gi],
        s0.len() == gi,
        idx0.len() == gi,
        pos0.len() == gi,
        forall|i: int, j: int| 0 <= i < j < groups.len() ==> groups[i].file_type@ != groups[j].file_type@,
        forall|a: int| 0 <= a < pi ==> s0[a].count >= g.count,
        forall|a: int| pi <= a < s0.len() ==> s0[a].count < g.count,
        forall|a: int, b: int| 0 <= a < b < s0.len() ==> s0[a].count >= s0[b].count,
        forall|a: int| 0 <= a < s0.len() ==> 0 <= #[trigger] idx0[a] < gi && s0[a] == groups[idx0[a]],
        forall|a: int, b: int| 0 <= a < b < idx0.len() ==> idx0[a] != idx0[b],
        forall|j: int| 0 <= j < gi ==> 0 <= #[trigger] pos0[j] < s0.len() && s0[pos0[j]] == groups[j],
    ensures
        ({
            let s1 = s0.insert(pi, g);
            let idx1 = idx0.insert(pi, gi);
            let pos1 = Seq::new(
                (gi + 1) as nat,
                |j: int|
                    if j == gi {
                        pi
                    } else if pos0[j] >= pi {
                        pos0[j] + 1
                    } else {
                        pos0[j]
                    },
            );
            &&& forall|a: int, b: int| 0 <= a < b < s1.len() ==> s1[a].count >= s1[b].count
            &&& forall|a: int|
                0 <= a < s1.len() ==> 0 <= #[trigger] idx1[a] < gi + 1 && s1[a] == groups[idx1[a]]
            &&& forall|j: int|
                0 <= j < gi + 1 ==> 0 <= #[trigger] pos1[j] < s1.len() && s1[pos1[j]] == groups[j]
            &&& forall|a: int, b: int| 0 <= a < b < idx1.len() ==> idx1[a] != idx1[b]
        }),
{
    let s1 = s0.insert(pi, g);
    let idx1 = idx0.insert(pi, gi);
    assert forall|a: int, b: int| 0 <= a < b < s1.len() implies s1[a].count >= s1[b].count by {
        if b < pi {
        } else if b == pi {
        } else if a < pi {
            assert(s1[b] == s0[b - 1]);
        } else if a == pi {
            assert(s1[b] == s0[b - 1]);
        } else {
            assert(s1[a] == s0[a - 1]);
            assert(s1[b] == s0[b - 1]);
        }
    }
    assert forall|a: int| 0 <= a < s1.len() implies 0 <= #[trigger] idx1[a] < gi + 1 && s1[a]
        == groups[idx1[a]] by {
        if a > pi {
            assert(idx1[a] == idx0[a - 1]);
            assert(s1[a] == s0[a - 1]);
        }
    }
    assert forall|a: int, b: int| 0 <= a < b < idx1.len() implies idx1[a] != idx1[b] by {
        if a > pi {
            assert(idx1[a] == idx0[a - 1]);
        }
        if b > pi {
            assert(idx1[b] == idx0[b - 1]);
        }
        if a < pi {
            assert(idx1[a] == idx0[a]);
        }
        if b < pi {
            assert(idx1[b] == idx0[b]);
        }
    }
}

/// Orders groups by count, largest first, and keeps the first
/// `MAX_RANKED_TYPES` of them. Groups with equal counts keep the order in
/// which they came.
fn rank_groups(groups: &Vec<FileTypeUsage>) -> (r: Vec<FileTypeUsage>)
    requires
        forall|i: int, j: int|
            0 <= i < j < groups@.len() ==> groups@[i].file_type@ != groups@[j].file_type@,
    ensures
        r@.len() == if groups@.len() < MAX_RANKED_TYPES {
            groups@.len()
        } else {
            MAX_RANKED_TYPES as nat
        },
        forall|a: int| 0 <= a < r@.len() ==> groups@.contains(#[trigger] r@[a]),
        forall|a: int, b: int|
            0 <= a < b < r@.len() ==> r@[a].file_type@ != r@[b].file_type@ && r@[a].count
                >= r@[b].count,
        forall|j: int, a: int|
            0 <= j < groups@.len() && 0 <= a < r@.len() && (forall|b: int|
                0 <= b < r@.len() ==> r@[b].file_type@ != groups@[j].file_type@)
                ==> groups@[j].count <= r@[a].count,
{
    let mut sorted: Vec<FileTypeUsage> = Vec::new();
    let ghost mut idx: Seq<int> = seq![];
    let ghost mut pos: Seq<int> = seq![];
    let mut gi: usize = 0;
    while gi < groups.len()
        invariant
            gi <= groups@.len(),
            forall|i: int, j: int|
                0 <= i < j < groups@.len() ==> groups@[i].file_type@ != groups@[j].file_type@,
            sorted@.len() == gi,
            idx.len() == gi,
            pos.len() == gi,
            forall|a: int, b: int|
                0 <= a < b < sorted@.len() ==> sorted@[a].count >= sorted@[b].count,
            forall|a: int|
                0 <= a < sorted@.len() ==> 0 <= #[trigger] idx[a] < gi && sorted@[a] == groups@[idx[a]],
            forall|a: int, b: int| 0 <= a < b < idx.len() ==> idx[a] != idx[b],
            forall|j: int|
                0 <= j < gi ==> 0 <= #[trigger] pos[j] < sorted@.len() && sorted@[pos[j]] == groups@[j],
        decreases groups.len() - gi,
    {
        let g = groups[gi].duplicate();
        let mut p: usize = 0;
        while p < sorted.len() && sorted[p].count >= g.count
            invariant
                p <= sorted@.len(),
                forall|a: int| 0 <= a < p ==> sorted@[a].count >= g.count,
            decreases sorted.len() - p,
        {
            p = p + 1;
        }
        let ghost s0 = sorted@;
        let ghost pi = p as int;
        proof {
            assert forall|a: int| pi <= a < s0.len() implies s0[a].count < g.count by {
                if a > pi {
                    assert(s0[pi].count >= s0[a].count);
                }
            }
            lemma_insert_ranked(s0, idx, pos, g, pi, groups@, gi as int);
        }
        sorted.insert(p, g);
        proof {
            let ghost old_pos = pos;
            idx = idx.insert(pi, gi as int);
            pos = Seq::new(
                (gi + 1) as nat,
                |j: int|
                    if j == gi {
                        pi
                    } else if old_pos[j] >= pi {
                        old_pos[j] + 1
                    } else {
                        old_pos[j]
                    },
            );
        }
        gi = gi + 1;
    }
    let ghost full = sorted@;
    sorted.truncate(MAX_RANKED_TYPES);
    proof {
        assert(sorted@ =~= full.take(sorted@.len() as int));
        assert forall|a: int| 0 <= a < sorted@.len() implies groups@.contains(#[trigger] sorted@[a]) by {
            assert(sorted@[a] == groups@[idx[a]]);
        }
        assert forall|a: int, b: int| 0 <= a < b < sorted@.len() implies sorted@[a].file_type@ != sorted@[b].file_type@
            && sorted@[a].count >= sorted@[b].count by {
            assert(sorted@[a] == groups@[idx[a]]);
            assert(sorted@[b] == groups@[idx[b]]);
            if idx[a] < idx[b] {
            } else {
                assert(idx[b] < idx[a]);
            }
        }
        assert forall|j: int, a: int|
            0 <= j < groups@.len() && 0 <= a < sorted@.len() && (forall|b: int|
                0 <= b < sorted@.len() ==> sorted@[b].file_type@ != groups@[j].file_type@) implies groups@[j].count
            <= sorted@[a].count by {
            let c = pos[j];
            if c < sorted@.len() {
                assert(sorted@[c].file_type@ == groups@[j].file_type@);
            }
        }
    }
    sorted
}

/// Ranks a wallet's file types by how many files have them.
fn most_used_types(mine: &Vec<FileRecord>) -> (r: Vec<FileTypeUsage>)
    requires
        forall|k: int| 0 <= k < mine@.len() ==> mine@[k].size >= 0,
        mine@.len() <= i64::MAX,
        size_sum(file_views(mine@)) <= i64::MAX,
    ensures
        is_type_ranking(file_views(mine@), r@),
{
    let ghost o = file_views(mine@);
    let groups = group_by_type(mine);
    proof {
        lemma_distinct_types(o);
    }
    let r = rank_groups(&groups);
    proof {
        let ts = distinct_types(o);
        assert forall|i: int| 0 <= i < r@.len() implies ts.contains(#[trigger] r@[i].file_type@)
            && r@[i].count == count_type(o, r@[i].file_type@) && r@[i].total_size == size_of_type(
            o,
            r@[i].file_type@,
        ) by {
            let j = choose|j: int| 0 <= j < groups@.len() && groups@[j] == r@[i];
            assert(groups@[j].file_type@ == ts[j]);
        }
        assert forall|t: Seq<char>, i: int|
            #![trigger ts.contains(t), r@[i]]
            ts.contains(t) && 0 <= i < r@.len() && (forall|j: int|
                0 <= j < r@.len() ==> r@[j].file_type@ != t) implies count_type(o, t) <= r@[i].count by {
            let j = choose|j: int| 0 <= j < ts.len() && ts[j] == t;
            assert(groups@[j].file_type@ == t);
        }
    }
    r
}

impl Store {
    /// The statistics of a wallet at time `now`. Refused with `NotFound`
    /// where the wallet has no account, and with `Overflow` where its files
    /// are too many, or too large together, to be counted in `i64`.
    pub fn get_user_stats_at(&self, wallet_address: &str, now: i64) -> (r: Result<
        UserStats,
        StoreError,
    >)
        requires
            self@.wf(),
        ensures
            match self@.lookup_user(wallet_address@) {
                None => r == Err::<UserStats, StoreError>(StoreError::NotFound),
                Some(u) => {
                    let o = owned_by(self@.files, wallet_address@);
                    if o.len() > i64::MAX || size_sum(o) > i64::MAX {
                        r == Err::<UserStats, StoreError>(StoreError::Overflow)
                    } else {
                        r is Ok && stats_of(o, u.total_files, u.total_storage, now, r->Ok_0)
                    }
                },
            },
    {
        let user = match self.get_user(wallet_address) {
            Some(u) => u,
            None => {
                return Err(StoreError::NotFound);
            },
        };
        let mine = self.get_user_files(wallet_address);
        proof {
            self@.lemma_owned_sizes(wallet_address@);
            assert forall|k: int| 0 <= k < mine@.len() implies mine@[k].size >= 0 by {
                assert(file_views(mine@)[k].size == mine@[k].size);
            }
        }
        if mine.len() as u128 > i64::MAX as u128 {
            return Err(StoreError::Overflow);
        }
        if total_size(&mine).is_none() {
            return Err(StoreError::Overflow);
        }
        let (files_today, storage_today) = today_usage(&mine, now);
        let ranked = most_used_types(&mine);
        Ok(
            UserStats {
                total_files: user.total_files,
                total_storage: user.total_storage,
                files_uploaded_today: files_today,
                storage_used_today: storage_today,
                most_used_file_types: ranked,
            },
        )
    }

    /// The statistics of a wallet now: what `get_user_stats_at` gives for
    /// the current time.
    pub fn get_user_stats(&self, wallet_address: &str) -> (r: Result<UserStats, StoreError>)
        requires
            self@.wf(),
        ensures
            match self@.lookup_user(wallet_address@) {
                None => r == Err::<UserStats, StoreError>(StoreError::NotFound),
                Some(u) => {
                    let o = owned_by(self@.files, wallet_address@);
                    if o.len() > i64::MAX || size_sum(o) > i64::MAX {
                        r == Err::<UserStats, StoreError>(StoreError::Overflow)
                    } else {
                        r is Ok && exists|now: i64|
                            stats_of(o, u.total_files, u.total_storage, now, r->Ok_0)
                    }
                },
            },
    {
        let now = now_micros();
        self.get_user_stats_at(wallet_address, now)
    }
}

fn find_type(groups: &Vec<FileTypeUsage>, t: &String) -> (r: Option<usize>)
    ensures
        match r {
            Some(j) => j < groups@.len() && groups@[j as int].file_type@ == t@,
            None => forall|jj: int| 0 <= jj < groups@.len() ==> groups@[jj].file_type@ != t@,
        },
{
    let mut j: usize = 0;
    while j < groups.len()
        invariant
            j <= groups@.len(),
            forall|jj: int| 0 <= jj < j ==> groups@[jj].file_type@ != t@,
        decreases groups.len() - j,
    {
        if groups[j].file_type == *t {
            return Some(j);
        }
        j = j + 1;
    }
    None
}

proof fn lemma_type_zero(s: Seq<FileView>, t: Seq<char>)
    requires
        !distinct_types(s).contains(t),
    ensures
        count_type(s, t) == 0,
        size_of_type(s, t) == 0,
    decreases s.len(),
{
    if s.len() > 0 {
        let p = s.drop_last();
        let dp = distinct_types(p);
        if dp.contains(t) {
            let k = choose|k: int| 0 <= k < dp.len() && dp[k] == t;
            assert(distinct_types(s)[k] == t);
            assert(false);
        }
        if s.last().file_type == t {
            assert(distinct_types(s) == dp.push(t));
            assert(distinct_types(s)[dp.len() as int] == t);
            assert(false);
        }
        lemma_type_zero(p, t);
    }

}

} // verus!
