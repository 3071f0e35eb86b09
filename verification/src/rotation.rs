//! Rotation and retention policy: when a log file rolls over, and which
//! rotated files survive the retention sweep at startup.

use vstd::prelude::*;
use vstd::multiset::Multiset;

use crate::text::views_of;

verus! {

/// Time-based rotation period for log files: how often a new file starts.
#[derive(Debug, Clone, Copy, PartialEq, Eq, Structural)]
pub enum Rotation {
    /// A new file each day.
    Daily,
    /// A new file each hour.
    Hourly,
    /// A new file each minute.
    Minutely,
    /// No time-based rollover.
    Never,
}

impl Default for Rotation {
    /// The default rotation period is daily.
    fn default() -> (r: Self)
        ensures
            r == Rotation::Daily,
    {
        Rotation::Daily
    }
}

/// The length of a rotation period in seconds; `Never` has none.
pub open spec fn spec_period_secs(r: Rotation) -> Option<u64> {
    match r {
        Rotation::Daily => Some(86400u64),
        Rotation::Hourly => Some(3600u64),
        Rotation::Minutely => Some(60u64),
        Rotation::Never => None,
    }
}

impl Rotation {
    /// The length of this rotation period in seconds, or `None` for `Never`.
    pub fn period_secs(self) -> (r: Option<u64>)
        ensures
            r == spec_period_secs(self),
    {
        match self {
            Rotation::Daily => Some(86400),
            Rotation::Hourly => Some(3600),
            Rotation::Minutely => Some(60),
            Rotation::Never => None,
        }
    }
}

/// A size threshold for log rotation, in bytes.
#[derive(Debug, Clone, Copy, PartialEq, Eq, Structural)]
pub struct MaxFileSize(u64);

impl MaxFileSize {
    /// The threshold in bytes, as seen by specifications.
    pub closed spec fn spec_bytes(self) -> u64 {
        self.0
    }

    /// A threshold given directly in bytes.
    pub fn bytes(bytes: u64) -> (r: Self)
        ensures
            r.spec_bytes() == bytes,
    {
        MaxFileSize(bytes)
    }

    /// A threshold given in kilobytes.
    pub fn kb(kb: u64) -> (r: Self)
        requires
            kb * 1024 <= u64::MAX,
        ensures
            r.spec_bytes() == kb * 1024,
    {
        MaxFileSize(kb * 1024)
    }

    /// A threshold given in megabytes.
    pub fn mb(mb: u64) -> (r: Self)
        requires
            mb * 1048576 <= u64::MAX,
        ensures
            r.spec_bytes() == mb * 1048576,
    {
        MaxFileSize(mb * 1048576)
    }

    /// A threshold given in gigabytes.
    pub fn gb(gb: u64) -> (r: Self)
        requires
            gb * 1073741824 <= u64::MAX,
        ensures
            r.spec_bytes() == gb * 1073741824,
    {
        MaxFileSize(gb * 1073741824)
    }

    /// The threshold in bytes.
    pub fn as_bytes(&self) -> (r: u64)
        ensures
            r == self.spec_bytes(),
    {
        self.0
    }

    /// The threshold holding exactly `v` bytes, as specifications see it:
    /// what converting a raw byte count yields.
    pub closed spec fn spec_from_bytes(v: u64) -> MaxFileSize {
        MaxFileSize(v)
    }

    /// Converting a raw byte count yields a threshold of exactly that many
    /// bytes.
    pub proof fn lemma_spec_from_bytes(v: u64)
        ensures
            Self::spec_from_bytes(v).spec_bytes() == v,
    {
    }
}

impl From<u64> for MaxFileSize {
    /// A threshold given directly as a raw byte count.
    fn from(bytes: u64) -> (r: Self) {
        MaxFileSize(bytes)
    }
}

impl vstd::std_specs::convert::FromSpecImpl<u64> for MaxFileSize {
    open spec fn obeys_from_spec() -> bool {
        true
    }

    open spec fn from_spec(v: u64) -> MaxFileSize {
        MaxFileSize::spec_from_bytes(v)
    }
}

/// Retention policy: how many rotated log files survive the sweep.
#[derive(Debug, Clone, Copy, PartialEq, Eq, Structural)]
pub enum RotationStrategy {
    /// Keep every rotated file.
    KeepAll,
    /// Keep only the newest file.
    KeepOne,
    /// Keep the N newest files.
    KeepSome(u32),
}

impl Default for RotationStrategy {
    /// The default retention keeps every file.
    fn default() -> (r: Self)
        ensures
            r == RotationStrategy::KeepAll,
    {
        RotationStrategy::KeepAll
    }
}

/// The number of files a retention strategy keeps; `KeepAll` has no bound.
pub open spec fn spec_keep_count(s: RotationStrategy) -> Option<int> {
    match s {
        RotationStrategy::KeepAll => None,
        RotationStrategy::KeepOne => Some(1int),
        RotationStrategy::KeepSome(n) => Some(n as int),
    }
}

/// A time-based trigger fires when a whole rotation period has elapsed.
pub open spec fn spec_time_due(period: Rotation, elapsed_secs: u64) -> bool {
    match spec_period_secs(period) {
        Some(p) => elapsed_secs >= p,
        None => false,
    }
}

/// A size-based trigger fires when the file has grown past the threshold.
pub open spec fn spec_size_due(size: u64, max_size: Option<u64>) -> bool {
    match max_size {
        Some(m) => size > m,
        None => false,
    }
}

/// Decides whether a log file should roll over now: the time trigger and the
/// size trigger are independent, and either alone is sufficient. With no
/// usable time granularity (`Never`) and no size threshold, the file never
/// rolls.
pub fn should_rotate(period: Rotation, elapsed_secs: u64, size: u64, max_size: Option<u64>) -> (r:
    bool)
    ensures
        r == (spec_time_due(period, elapsed_secs) || spec_size_due(size, max_size)),
{
    let time_due = match period.period_secs() {
        Some(p) => elapsed_secs >= p,
        None => false,
    };
    let size_due = match max_size {
        Some(m) => size > m,
        None => false,
    };
    time_due || size_due
}

/// The retention sweep runs only when no size threshold is configured:
/// size-rotated file suffixes are not guaranteed to sort chronologically,
/// so the sweep is skipped rather than trusted on them.
pub fn retention_sweep_enabled(max_size: Option<u64>) -> (r: bool)
    ensures
        r == (max_size is None),
{
    max_size.is_none()
}

/// A file name of the form `{prefix}.` ... `.log`: a rotated log file of the
/// given prefix.
pub open spec fn matches_rotated(name: Seq<char>, prefix: Seq<char>) -> bool {
    &&& name.len() >= prefix.len() + 5
    &&& name.take(prefix.len() as int + 1) == prefix.push('.')
    &&& name.skip(name.len() - 4) == ".log"@
}

/// Returns whether `name` is a rotated log file of the given prefix:
/// `{prefix}.` at the start, `.log` at the end, with a non-overlapping
/// middle part.
pub fn is_rotated_name(name: &Vec<char>, prefix: &Vec<char>) -> (r: bool)
    ensures
        r == matches_rotated(name@, prefix@),
{
    let nlen = name.len();
    let plen = prefix.len();
    if nlen < plen || nlen - plen < 5 {
        return false;
    }
    let mut i: usize = 0;
    while i < plen
        invariant
            plen == prefix@.len(),
            nlen == name@.len(),
            nlen >= plen + 5,
            0 <= i <= plen,
            forall|j: int| 0 <= j < i ==> name@[j] == prefix@[j],
        decreases plen - i,
    {
        if name[i] != prefix[i] {
            proof {
                assert(name@.take(plen as int + 1)[i as int] != prefix@.push('.')[i as int]);
            }
            return false;
        }
        i = i + 1;
    }
    if name[plen] != '.' {
        proof {
            assert(name@.take(plen as int + 1)[plen as int] != prefix@.push('.')[plen as int]);
        }
        return false;
    }
    proof {
        assert(name@.take(plen as int + 1) =~= prefix@.push('.'));
    }
    let suffix = crate::text::to_chars(".log");
    proof {
        reveal_strlit(".log");
    }
    let mut k: usize = 0;
    while k < 4
        invariant
            nlen == name@.len(),
            nlen >= 5,
            suffix@ == ".log"@,
            suffix@.len() == 4,
            0 <= k <= 4,
            forall|j: int| 0 <= j < k ==> name@[nlen - 4 + j] == ".log"@[j],
        decreases 4 - k,
    {
        if name[nlen - 4 + k] != suffix[k] {
            proof {
                assert(name@.skip(nlen as int - 4)[k as int] != ".log"@[k as int]);
            }
            return false;
        }
        k = k + 1;
    }
    proof {
        assert(name@.skip(nlen as int - 4) =~= ".log"@);
    }
    true
}

/// Lexicographic comparison of the tails of `a` and `b` from position `i`:
/// order by the first differing character's code point, with a proper prefix
/// ordered before its extensions.
pub open spec fn lex_le_from(a: Seq<char>, b: Seq<char>, i: int) -> bool
    decreases a.len() - i,
{
    if i < 0 || i >= a.len() {
        true
    } else if i >= b.len() {
        false
    } else if a[i] == b[i] {
        lex_le_from(a, b, i + 1)
    } else {
        (a[i] as u32) < (b[i] as u32)
    }
}

/// Lexicographic order on names: `a` sorts at or before `b`.
pub open spec fn lex_le(a: Seq<char>, b: Seq<char>) -> bool {
    lex_le_from(a, b, 0)
}

/// The lexicographic order is total: of any two names, one sorts at or
/// before the other.
pub proof fn lemma_lex_total(a: Seq<char>, b: Seq<char>, i: int)
    requires
        0 <= i,
    ensures
        lex_le_from(a, b, i) || lex_le_from(b, a, i),
    decreases a.len() - i,
{
    if i >= a.len() {
    } else if i >= b.len() {
    } else if a[i] == b[i] {
        lemma_lex_total(a, b, i + 1);
    } else {
        vstd::utf8::char_u32_cast(a[i], a[i] as u32);
        vstd::utf8::char_u32_cast(b[i], b[i] as u32);
    }
}

/// The lexicographic order is transitive.
pub proof fn lemma_lex_trans(a: Seq<char>, b: Seq<char>, c: Seq<char>, i: int)
    requires
        0 <= i,
        lex_le_from(a, b, i),
        lex_le_from(b, c, i),
    ensures
        lex_le_from(a, c, i),
    decreases a.len() - i,
{
    if i >= a.len() {
    } else if i >= b.len() {
    } else if i >= c.len() {
    } else if a[i] == b[i] && b[i] == c[i] {
        lemma_lex_trans(a, b, c, i + 1);
    }
}

/// Compares two names lexicographically.
pub fn lex_le_chars(a: &Vec<char>, b: &Vec<char>) -> (r: bool)
    ensures
        r == lex_le(a@, b@),
{
    let mut i: usize = 0;
    while i < a.len()
        invariant
            0 <= i <= a@.len(),
            lex_le(a@, b@) == lex_le_from(a@, b@, i as int),
        decreases a@.len() - i,
    {
        if i >= b.len() {
            return false;
        }
        if a[i] != b[i] {
            return (a[i] as u32) < (b[i] as u32);
        }
        i = i + 1;
    }
    true
}

/// Compares two strings lexicographically by their characters.
pub fn lex_le_str(a: &String, b: &String) -> (r: bool)
    ensures
        r == lex_le(a@, b@),
{
    let ca = crate::text::to_chars(a.as_str());
    let cb = crate::text::to_chars(b.as_str());
    lex_le_chars(&ca, &cb)
}

/// The names are in descending lexicographic order.
pub open spec fn sorted_desc(vs: Seq<Seq<char>>) -> bool {
    forall|i: int, j: int| 0 <= i < j < vs.len() ==> #[trigger] lex_le(vs[j], vs[i])
}

/// Sorts names into descending lexicographic order by repeatedly extracting
/// a greatest remaining name.
fn sort_desc(input: Vec<String>) -> (r: Vec<String>)
    ensures
        views_of(r@).to_multiset() == views_of(input@).to_multiset(),
        sorted_desc(views_of(r@)),
{
    broadcast use vstd::seq_lib::group_to_multiset_ensures;
    broadcast use vstd::multiset::group_multiset_axioms;

    let ghost orig = views_of(input@);
    let mut rest = input;
    let mut sorted: Vec<String> = Vec::new();
    proof {
        assert(views_of(sorted@) =~= Seq::<Seq<char>>::empty());
        assert(views_of(sorted@).to_multiset().add(views_of(rest@).to_multiset())
            =~= orig.to_multiset());
    }
    while rest.len() > 0
        invariant
            views_of(sorted@).to_multiset().add(views_of(rest@).to_multiset())
                == orig.to_multiset(),
            sorted_desc(views_of(sorted@)),
            forall|i: int, j: int|
                0 <= i < sorted@.len() && 0 <= j < rest@.len() ==> #[trigger] lex_le(
                    views_of(rest@)[j],
                    views_of(sorted@)[i],
                ),
        decreases rest@.len(),
    {
        let mut best: usize = 0;
        let mut t: usize = 1;
        proof {
            lemma_lex_total(views_of(rest@)[0], views_of(rest@)[0], 0);
        }
        while t < rest.len()
            invariant
                rest@.len() > 0,
                0 <= best < t <= rest@.len() || (t <= rest@.len() && best < rest@.len()),
                best < rest@.len(),
                t <= rest@.len(),
                forall|j: int|
                    0 <= j < t ==> #[trigger] lex_le(
                        views_of(rest@)[j],
                        views_of(rest@)[best as int],
                    ),
            decreases rest@.len() - t,
        {
            if lex_le_str(&rest[best], &rest[t]) {
                proof {
                    let vs = views_of(rest@);
                    assert forall|j: int| 0 <= j < t + 1 implies #[trigger] lex_le(
                        vs[j],
                        vs[t as int],
                    ) by {
                        if j < t {
                            assert(lex_le(vs[j], vs[best as int]));
                            lemma_lex_trans(vs[j], vs[best as int], vs[t as int], 0);
                        } else {
                            lemma_lex_total(vs[t as int], vs[t as int], 0);
                        }
                    }
                }
                best = t;
            } else {
                proof {
                    let vs = views_of(rest@);
                    lemma_lex_total(vs[best as int], vs[t as int], 0);
                }
            }
            t = t + 1;
        }
        let ghost rest_old = rest@;
        let ghost sorted_old = sorted@;
        let x = rest.remove(best);
        let ghost xv = x@;
        sorted.push(x);
        proof {
            let vs_old = views_of(rest_old);
            assert(xv == vs_old[best as int]);
            assert(views_of(rest@) =~= vs_old.remove(best as int));
            assert(views_of(sorted@) =~= views_of(sorted_old).push(xv));
            vstd::seq_lib::to_multiset_build(views_of(sorted_old), xv);
            assert(views_of(sorted@).to_multiset() =~= views_of(sorted_old).to_multiset().insert(
                xv,
            ));
            vstd::seq_lib::to_multiset_remove(vs_old, best as int);
            assert(views_of(rest@).to_multiset() =~= vs_old.to_multiset().remove(xv));
            assert(vs_old.to_multiset().count(xv) >= 1) by {
                broadcast use vstd::seq_lib::group_to_multiset_ensures;

                assert(0 <= best < vs_old.len() && vs_old[best as int] == xv);
                assert(vs_old.contains(xv));
            }
            assert(views_of(sorted@).to_multiset().add(views_of(rest@).to_multiset())
                =~= views_of(sorted_old).to_multiset().add(vs_old.to_multiset()));
            // The new last element sorts at or below every earlier one.
            assert forall|i: int, j: int|
                0 <= i < j < views_of(sorted@).len() implies #[trigger] lex_le(
                views_of(sorted@)[j],
                views_of(sorted@)[i],
            ) by {
                if j < views_of(sorted_old).len() {
                    assert(lex_le(views_of(sorted_old)[j], views_of(sorted_old)[i]));
                } else {
                    assert(views_of(sorted@)[j] == xv);
                    assert(lex_le(vs_old[best as int], views_of(sorted_old)[i]));
                }
            }
            // Everything still unsorted sorts at or below everything sorted.
            assert forall|i: int, j: int|
                0 <= i < sorted@.len() && 0 <= j < rest@.len() implies #[trigger] lex_le(
                views_of(rest@)[j],
                views_of(sorted@)[i],
            ) by {
                let wj = if j < best as int {
                    j
                } else {
                    j + 1
                };
                assert(views_of(rest@)[j] == vs_old[wj]);
                assert(lex_le(vs_old[wj], vs_old[best as int]));
                if i < sorted_old.len() {
                    assert(lex_le(vs_old[wj], views_of(sorted_old)[i]));
                } else {
                    assert(views_of(sorted@)[i] == xv);
                }
            }
        }
    }
    proof {
        assert(views_of(rest@).to_multiset() =~= Multiset::<Seq<char>>::empty());
        assert(views_of(sorted@).to_multiset().add(Multiset::<Seq<char>>::empty())
            =~= views_of(sorted@).to_multiset());
    }
    sorted
}

/// The rotated files of the given prefix among `names`, in their original
/// order.
pub open spec fn matching_of(names: Seq<Seq<char>>, prefix: Seq<char>) -> Seq<Seq<char>>
    decreases names.len(),
{
    if names.len() == 0 {
        Seq::<Seq<char>>::empty()
    } else {
        let rest = matching_of(names.drop_last(), prefix);
        if matches_rotated(names.last(), prefix) {
            rest.push(names.last())
        } else {
            rest
        }
    }
}

/// Every file selected by `matching_of` is a rotated file of the prefix.
pub proof fn lemma_matching_of_matches(names: Seq<Seq<char>>, prefix: Seq<char>, j: int)
    requires
        0 <= j < matching_of(names, prefix).len(),
    ensures
        matches_rotated(matching_of(names, prefix)[j], prefix),
    decreases names.len(),
{
    let rest = matching_of(names.drop_last(), prefix);
    if names.len() > 0 && !(matches_rotated(names.last(), prefix) && j == rest.len()) {
        lemma_matching_of_matches(names.drop_last(), prefix, j);
    }
}

/// The outcome of a retention sweep: which files stay and which go.
#[derive(Debug, Clone)]
pub struct RetentionPlan {
    /// The retained files, newest first.
    pub kept: Vec<String>,
    /// The files to delete, newest first.
    pub deleted: Vec<String>,
}

/// Plans a retention sweep over the given directory listing: of the files
/// named `{prefix}.` ... `.log`, ordered descending by name (which embeds
/// the rotation boundary, so name order is age order), the newest
/// `KeepSome(n)` / `KeepOne` survive and the rest are deleted; `KeepAll`
/// deletes nothing. Files that do not match the pattern are never touched.
pub fn retention_plan(files: &Vec<String>, prefix: &str, strategy: RotationStrategy) -> (r:
    RetentionPlan)
    ensures
        sorted_desc(views_of(r.kept@) + views_of(r.deleted@)),
        (views_of(r.kept@) + views_of(r.deleted@)).to_multiset() == matching_of(
            views_of(files@),
            prefix@,
        ).to_multiset(),
        forall|j: int| 0 <= j < r.kept@.len() ==> matches_rotated(#[trigger] r.kept@[j]@, prefix@),
        forall|j: int|
            0 <= j < r.deleted@.len() ==> matches_rotated(#[trigger] r.deleted@[j]@, prefix@),
        ({
            let total = matching_of(views_of(files@), prefix@).len();
            match spec_keep_count(strategy) {
                None => r.deleted@.len() == 0 && r.kept@.len() == total,
                Some(k) => r.kept@.len() == if total <= k {
                    total as int
                } else {
                    k
                } && r.kept@.len() + r.deleted@.len() == total,
            }
        }),
{
    broadcast use vstd::seq_lib::group_to_multiset_ensures;

    let prefix_chars = crate::text::to_chars(prefix);
    let ghost fvs = views_of(files@);
    let mut ms: Vec<String> = Vec::new();
    let mut i: usize = 0;
    proof {
        assert(fvs.take(0) =~= Seq::<Seq<char>>::empty());
        assert(views_of(ms@) =~= matching_of(fvs.take(0), prefix@));
    }
    while i < files.len()
        invariant
            0 <= i <= files@.len(),
            fvs == views_of(files@),
            prefix_chars@ == prefix@,
            views_of(ms@) == matching_of(fvs.take(i as int), prefix@),
        decreases files@.len() - i,
    {
        let name_chars = crate::text::to_chars(files[i].as_str());
        let ghost ms_old = ms@;
        proof {
            assert(fvs.take(i + 1).drop_last() =~= fvs.take(i as int));
            assert(fvs.take(i + 1).last() == fvs[i as int]);
        }
        if is_rotated_name(&name_chars, &prefix_chars) {
            ms.push(files[i].clone());
            proof {
                assert(views_of(ms@) =~= views_of(ms_old).push(fvs[i as int]));
            }
        }
        i = i + 1;
    }
    proof {
        assert(fvs.take(fvs.len() as int) =~= fvs);
    }
    let sorted = sort_desc(ms);
    let total = sorted.len();
    proof {
        assert(views_of(sorted@).to_multiset().len() == matching_of(fvs, prefix@).to_multiset().len());
        assert(total == matching_of(fvs, prefix@).len());
    }
    let keep_n: usize = match strategy {
        RotationStrategy::KeepAll => total,
        RotationStrategy::KeepOne => 1,
        RotationStrategy::KeepSome(n) => {
            if (n as usize) < total {
                n as usize
            } else {
                total
            }
        },
    };
    let boundary: usize = if keep_n < total {
        keep_n
    } else {
        total
    };
    let mut kept: Vec<String> = Vec::new();
    let mut deleted: Vec<String> = Vec::new();
    let mut j: usize = 0;
    proof {
        assert(views_of(kept@) =~= views_of(sorted@).take(0));
        assert(views_of(deleted@) =~= Seq::<Seq<char>>::empty());
    }
    while j < boundary
        invariant
            0 <= j <= boundary <= sorted@.len(),
            views_of(kept@) == views_of(sorted@).take(j as int),
        decreases boundary - j,
    {
        let ghost kept_old = kept@;
        kept.push(sorted[j].clone());
        proof {
            assert(views_of(kept@) =~= views_of(kept_old).push(views_of(sorted@)[j as int]));
            assert(views_of(sorted@).take(j + 1) =~= views_of(sorted@).take(j as int).push(
                views_of(sorted@)[j as int],
            ));
        }
        j = j + 1;
    }
    while j < total
        invariant
            boundary <= j <= total == sorted@.len(),
            views_of(kept@) == views_of(sorted@).take(boundary as int),
            views_of(deleted@) == views_of(sorted@).subrange(boundary as int, j as int),
        decreases total - j,
    {
        let ghost deleted_old = deleted@;
        deleted.push(sorted[j].clone());
        proof {
            assert(views_of(deleted@) =~= views_of(deleted_old).push(views_of(sorted@)[j as int]));
            assert(views_of(sorted@).subrange(boundary as int, j + 1) =~= views_of(
                sorted@,
            ).subrange(boundary as int, j as int).push(views_of(sorted@)[j as int]));
        }
        j = j + 1;
    }
    proof {
        assert(views_of(kept@) + views_of(deleted@) =~= views_of(sorted@));
        assert forall|q: int| 0 <= q < kept@.len() implies matches_rotated(
            #[trigger] kept@[q]@,
            prefix@,
        ) by {
            let vs = views_of(sorted@);
            assert(kept@[q]@ == vs[q]);
            assert(vs.contains(vs[q]));
            assert(vs.to_multiset().count(vs[q]) > 0);
            let mm = matching_of(fvs, prefix@);
            assert(mm.to_multiset().count(vs[q]) > 0);
            assert(mm.contains(vs[q]));
            let w = choose|w: int| 0 <= w < mm.len() && mm[w] == vs[q];
            lemma_matching_of_matches(fvs, prefix@, w);
        }
        assert forall|q: int| 0 <= q < deleted@.len() implies matches_rotated(
            #[trigger] deleted@[q]@,
            prefix@,
        ) by {
            let vs = views_of(sorted@);
            assert(deleted@[q]@ == vs[boundary + q]);
            assert(vs.contains(vs[boundary + q]));
            assert(vs.to_multiset().count(vs[boundary + q]) > 0);
            let mm = matching_of(fvs, prefix@);
            assert(mm.to_multiset().count(vs[boundary + q]) > 0);
            assert(mm.contains(vs[boundary + q]));
            let w = choose|w: int| 0 <= w < mm.len() && mm[w] == vs[boundary + q];
            lemma_matching_of_matches(fvs, prefix@, w);
        }
    }
    RetentionPlan { kept, deleted }
}

} // verus!
