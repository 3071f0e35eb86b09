//! Call-stack parsing: turns raw multi-line stack-trace text into a filtered,
//! cleaned location string, with three projections of decreasing verbosity.

use vstd::prelude::*;

use crate::LogLevel;
use crate::text::{
    contains_chars, contains_sub, find_char_from, find_sub, first_char_from, first_match_from,
    from_chars, is_match_at, join_strings, join_with, lemma_first_char_from,
    lemma_first_match_from, split_on, split_string, suffix_after_last, to_chars, views_of,
};

verus! {

/// The marker of a vendored-dependency frame; frames containing it are
/// excluded from the location.
pub open spec fn vendor_marker() -> Seq<char> {
    "node_modules"@
}

/// The marker of a native/built-in-function frame; frames containing it are
/// excluded from the location.
pub open spec fn native_marker() -> Seq<char> {
    "forEach@[native code]"@
}

/// The start of a local-development-server URL prefix.
pub open spec fn localhost_marker() -> Seq<char> {
    "localhost:"@
}

/// A frame survives the filter when it contains neither marker.
pub open spec fn keep_frame(l: Seq<char>) -> bool {
    !contains_sub(l, vendor_marker()) && !contains_sub(l, native_marker())
}

/// A frame with its local-development URL prefix removed: everything up to
/// and including the first `/` at or after the first `localhost:` goes; a
/// frame without the pattern is unchanged.
pub open spec fn strip_localhost_spec(l: Seq<char>) -> Seq<char> {
    let m = first_match_from(l, localhost_marker(), 0);
    if m >= 0 {
        let sl = first_char_from(l, '/', m);
        if sl >= 0 {
            l.skip(sl + 1)
        } else {
            l
        }
    } else {
        l
    }
}

/// The frames that make up the location: those that pass the frame filter,
/// in order, each with its local-development URL prefix removed.
pub open spec fn location_segments(lines: Seq<Seq<char>>) -> Seq<Seq<char>>
    decreases lines.len(),
{
    if lines.len() == 0 {
        Seq::<Seq<char>>::empty()
    } else {
        let rest = location_segments(lines.drop_last());
        if keep_frame(lines.last()) {
            rest.push(strip_localhost_spec(lines.last()))
        } else {
            rest
        }
    }
}

/// The location: the surviving cleaned frames joined with `#`.
pub open spec fn location_spec(lines: Seq<Seq<char>>) -> Seq<char> {
    join_with(location_segments(lines), seq!['#'])
}

/// The lines of a raw stack text: the pieces between newlines.
pub open spec fn parsed_lines(raw: Seq<char>) -> Seq<Seq<char>> {
    split_on(raw, '\n')
}

/// A single textual stack frame.
///
/// The default value is the literal sentinel `unknown`.
#[derive(Debug, Clone)]
pub struct CallStackLine(String);

impl View for CallStackLine {
    type V = Seq<char>;

    closed spec fn view(&self) -> Seq<char> {
        self.0@
    }
}

impl CallStackLine {
    /// Wraps the given text as a frame.
    pub fn new(value: &str) -> (r: Self)
        ensures
            r@ == value@,
    {
        CallStackLine(value.to_owned())
    }

    /// Wraps the given text as a frame; an absent text yields the sentinel
    /// `unknown`.
    pub fn from_option(value: Option<&str>) -> (r: Self)
        ensures
            r@ == match value {
                Some(s) => s@,
                None => "unknown"@,
            },
    {
        match value {
            Some(s) => CallStackLine(s.to_owned()),
            None => CallStackLine("unknown".to_owned()),
        }
    }

    /// The text of this frame.
    pub fn as_str(&self) -> (r: &str)
        ensures
            r@ == self@,
    {
        self.0.as_str()
    }

    /// A copy of this frame with every occurrence of `from` replaced by
    /// `to`, leftmost first and non-overlapping.
    pub fn replace(&self, from: &str, to: &str) -> (r: Self)
        ensures
            r@ == crate::text::replace_spec(self@, from@, to@),
    {
        let sc = to_chars(self.0.as_str());
        let fc = to_chars(from);
        let tc = to_chars(to);
        let replaced = crate::text::replace_chars(&sc, &fc, &tc);
        CallStackLine(from_chars(&replaced))
    }
}

impl Default for CallStackLine {
    /// The default frame is the sentinel `unknown`.
    fn default() -> (r: Self)
        ensures
            r@ == "unknown"@,
    {
        CallStackLine("unknown".to_owned())
    }
}

impl PartialEq for CallStackLine {
    fn eq(&self, other: &Self) -> (r: bool) {
        self.0.eq(&other.0)
    }
}

impl vstd::std_specs::cmp::PartialEqSpecImpl for CallStackLine {
    open spec fn obeys_eq_spec() -> bool {
        true
    }

    open spec fn eq_spec(&self, other: &Self) -> bool {
        self@ == other@
    }
}

/// Mapping after appending one element appends its image.
proof fn lemma_map_push<A, B>(s: Seq<A>, x: A, f: spec_fn(A) -> B)
    ensures
        s.push(x).map_values(f) == s.map_values(f).push(f(x)),
{
    assert(s.push(x).map_values(f) =~= s.map_values(f).push(f(x)));
}

/// The location segments of one more frame: the frame's cleaned text is
/// appended when it passes the frame filter.
proof fn lemma_segments_push(lines: Seq<Seq<char>>, x: Seq<char>)
    ensures
        location_segments(lines.push(x)) == if keep_frame(x) {
            location_segments(lines).push(strip_localhost_spec(x))
        } else {
            location_segments(lines)
        },
{
    assert(lines.push(x).drop_last() =~= lines);
    assert(lines.push(x).last() == x);
}

/// An ordered sequence of stack frames, parsed out of raw stack-trace text.
#[derive(Debug, Clone)]
pub struct CallStack(pub Vec<CallStackLine>);

impl View for CallStack {
    type V = Seq<Seq<char>>;

    open spec fn view(&self) -> Seq<Seq<char>> {
        self.0@.map_values(|l: CallStackLine| l@)
    }
}

impl CallStack {
    /// Parses raw stack text by splitting it on newlines; an absent text is
    /// read as the empty string, which yields one empty frame.
    pub fn new(value: Option<&str>) -> (r: Self)
        ensures
            r@ == parsed_lines(
                match value {
                    Some(s) => s@,
                    None => Seq::<char>::empty(),
                },
            ),
    {
        let raw: Vec<char> = match value {
            Some(s) => to_chars(s),
            None => Vec::new(),
        };
        let pieces = split_string(&raw, '\n');
        let mut lines: Vec<CallStackLine> = Vec::new();
        let mut i: usize = 0;
        proof {
            assert(lines@.map_values(|l: CallStackLine| l@) =~= views_of(pieces@).take(0));
        }
        while i < pieces.len()
            invariant
                0 <= i <= pieces@.len(),
                lines@.map_values(|l: CallStackLine| l@) == views_of(pieces@).take(i as int),
            decreases pieces@.len() - i,
        {
            let ghost lines_old = lines@;
            lines.push(CallStackLine(pieces[i].clone()));
            proof {
                lemma_map_push(lines_old, lines@.last(), |l: CallStackLine| l@);
                assert(lines_old.push(lines@.last()) =~= lines@);
                assert(views_of(pieces@).take(i + 1) =~= views_of(pieces@).take(i as int).push(
                    views_of(pieces@)[i as int],
                ));
            }
            i = i + 1;
        }
        proof {
            assert(views_of(pieces@).take(pieces@.len() as int) =~= views_of(pieces@));
        }
        CallStack(lines)
    }

    /// Parses raw stack text held in an owned `String`, as `new` does.
    pub fn from_option_string(value: &Option<String>) -> (r: Self)
        ensures
            r@ == parsed_lines(
                match value {
                    Some(s) => s@,
                    None => Seq::<char>::empty(),
                },
            ),
    {
        match value {
            Some(s) => CallStack::new(Some(s.as_str())),
            None => CallStack::new(None),
        }
    }

    /// The joined location: every frame that passes the frame filter, cleaned
    /// of its local-development URL prefix, joined with `#`.
    pub fn location(&self) -> (r: CallStackLine)
        ensures
            r@ == location_spec(self@),
    {
        let vendor = to_chars("node_modules");
        let native = to_chars("forEach@[native code]");
        let mut pieces: Vec<String> = Vec::new();
        let mut i: usize = 0;
        proof {
            assert(self@.take(0) =~= Seq::<Seq<char>>::empty());
            assert(views_of(pieces@) =~= location_segments(self@.take(0)));
        }
        while i < self.0.len()
            invariant
                0 <= i <= self.0@.len(),
                self@.len() == self.0@.len(),
                vendor@ == vendor_marker(),
                native@ == native_marker(),
                views_of(pieces@) == location_segments(self@.take(i as int)),
            decreases self.0@.len() - i,
        {
            let cs = to_chars(self.0[i].as_str());
            proof {
                assert(self@[i as int] == self.0@[i as int]@);
            }
            let drop_vendor = contains_chars(&cs, &vendor);
            let drop_native = contains_chars(&cs, &native);
            let ghost pieces_old = pieces@;
            let ghost pre = self@.take(i as int);
            proof {
                assert(self@.take(i + 1) =~= pre.push(self@[i as int]));
                lemma_segments_push(pre, self@[i as int]);
            }
            if !drop_vendor && !drop_native {
                let stripped = strip_localhost_chars(&cs);
                let piece = from_chars(&stripped);
                let ghost pv = piece@;
                pieces.push(piece);
                proof {
                    assert(keep_frame(self@[i as int]));
                    assert(pv == strip_localhost_spec(self@[i as int]));
                    assert(views_of(pieces@) =~= views_of(pieces_old).push(pv));
                    assert(views_of(pieces@) == location_segments(self@.take(i + 1)));
                }
            } else {
                proof {
                    assert(!keep_frame(self@[i as int]));
                    assert(views_of(pieces@) == location_segments(self@.take(i + 1)));
                }
            }
            i = i + 1;
        }
        proof {
            assert(self@.take(self@.len() as int) =~= self@);
        }
        let joined = join_strings(&pieces, '#');
        CallStackLine(joined)
    }

    /// The most recent surviving frame, whole: the last `#`-separated segment
    /// of the location.
    pub fn path(&self) -> (r: CallStackLine)
        ensures
            r@ == split_on(location_spec(self@), '#').last(),
    {
        let loc = self.location();
        let cs = to_chars(loc.as_str());
        let tail = suffix_after_last(&cs, '#');
        CallStackLine(from_chars(&tail))
    }

    /// The deepest path component of the most recent surviving frame: the
    /// last `/`-separated segment of the location.
    pub fn file_name(&self) -> (r: CallStackLine)
        ensures
            r@ == split_on(location_spec(self@), '/').last(),
    {
        let loc = self.location();
        let cs = to_chars(loc.as_str());
        let tail = suffix_after_last(&cs, '/');
        CallStackLine(from_chars(&tail))
    }
}

/// Removes the local-development URL prefix from one frame, if present.
fn strip_localhost_chars(l: &Vec<char>) -> (r: Vec<char>)
    ensures
        r@ == strip_localhost_spec(l@),
{
    let llen = l.len();
    let marker = to_chars("localhost:");
    match find_sub(l, &marker) {
        Some(m) => {
            proof {
                lemma_first_match_from(l@, marker@, 0);
            }
            match find_char_from(l, '/', m) {
                Some(sl) => {
                    proof {
                        lemma_first_char_from(l@, '/', m as int);
                        assert(sl < llen);
                    }
                    tail_from_wrap(l, sl + 1)
                },
                None => l.clone(),
            }
        },
        None => l.clone(),
    }
}

/// Copies the tail of a frame starting at `from`.
fn tail_from_wrap(l: &Vec<char>, from: usize) -> (r: Vec<char>)
    requires
        from <= l@.len(),
    ensures
        r@ == l@.skip(from as int),
{
    crate::text::tail_from(l, from)
}

/// The location string a dispatched event carries for each severity: the
/// most severe and least severe extremes get the full location, the middle
/// severities get shorter projections.
///
/// `Trace` and `Error` resolve to the full location; `Debug` and `Warn` to
/// the last `#`-separated segment; `Info` to the last `/`-separated segment.
pub open spec fn resolve_caller_spec(level: LogLevel, lines: Seq<Seq<char>>) -> Seq<char> {
    match level {
        LogLevel::Trace => location_spec(lines),
        LogLevel::Error => location_spec(lines),
        LogLevel::Debug => split_on(location_spec(lines), '#').last(),
        LogLevel::Warn => split_on(location_spec(lines), '#').last(),
        LogLevel::Info => split_on(location_spec(lines), '/').last(),
    }
}

/// Picks the location projection appropriate to the severity of an event:
/// `location()` for `Trace` and `Error`, `path()` for `Debug` and `Warn`,
/// `file_name()` for `Info`.
pub fn resolve_caller(level: LogLevel, stack: &CallStack) -> (r: CallStackLine)
    ensures
        r@ == resolve_caller_spec(level, stack@),
{
    match level {
        LogLevel::Trace => stack.location(),
        LogLevel::Error => stack.location(),
        LogLevel::Debug => stack.path(),
        LogLevel::Warn => stack.path(),
        LogLevel::Info => stack.file_name(),
    }
}

/// A marker absent from a frame is absent from any tail of the frame.
proof fn lemma_contains_sub_skip(l: Seq<char>, m: Seq<char>, k: int)
    requires
        0 <= k <= l.len(),
        contains_sub(l.skip(k), m),
    ensures
        contains_sub(l, m),
{
    let i = choose|i: int| is_match_at(l.skip(k), m, i);
    assert(l.skip(k).subrange(i, i + m.len() as int) =~= l.subrange(k + i, k + i + m.len() as int));
    assert(is_match_at(l, m, k + i));
}

/// Cleaning a frame of its URL prefix keeps both markers absent.
proof fn lemma_strip_keeps_marker_free(l: Seq<char>, m: Seq<char>)
    requires
        !contains_sub(l, m),
    ensures
        !contains_sub(strip_localhost_spec(l), m),
{
    let at = first_match_from(l, localhost_marker(), 0);
    if at >= 0 {
        lemma_first_match_from(l, localhost_marker(), 0);
        let sl = first_char_from(l, '/', at);
        if sl >= 0 {
            lemma_first_char_from(l, '/', at);
            if contains_sub(l.skip(sl + 1), m) {
                lemma_contains_sub_skip(l, m, sl + 1);
            }
        }
    }
}

/// Excluded frames leave no trace: every segment of the location is free of
/// the vendored-dependency marker and of the native-function marker, so a
/// frame containing either is absent from the location.
pub proof fn lemma_location_marker_free(lines: Seq<Seq<char>>, j: int)
    requires
        0 <= j < location_segments(lines).len(),
    ensures
        !contains_sub(location_segments(lines)[j], vendor_marker()),
        !contains_sub(location_segments(lines)[j], native_marker()),
    decreases lines.len(),
{
    let rest = location_segments(lines.drop_last());
    if keep_frame(lines.last()) && j == rest.len() {
        lemma_strip_keeps_marker_free(lines.last(), vendor_marker());
        lemma_strip_keeps_marker_free(lines.last(), native_marker());
    } else {
        lemma_location_marker_free(lines.drop_last(), j);
    }
}

/// The URL prefix of a surviving frame is removed: when a frame contains the
/// `localhost:` marker followed by a `/`, its cleaned text is exactly the
/// part after the first `/` at or after the first marker occurrence.
pub proof fn lemma_localhost_prefix_stripped(l: Seq<char>)
    requires
        contains_sub(l, localhost_marker()),
        exists|j: int|
            first_match_from(l, localhost_marker(), 0) <= j < l.len() && l[j] == '/',
    ensures
        ({
            let m = first_match_from(l, localhost_marker(), 0);
            let sl = first_char_from(l, '/', m);
            &&& 0 <= m <= sl < l.len()
            &&& is_match_at(l, localhost_marker(), m)
            &&& forall|i: int| 0 <= i < m ==> !is_match_at(l, localhost_marker(), i)
            &&& l[sl] == '/'
            &&& forall|k: int| m <= k < sl ==> l[k] != '/'
            &&& strip_localhost_spec(l) == l.skip(sl + 1)
        }),
{
    let m = first_match_from(l, localhost_marker(), 0);
    lemma_first_match_from(l, localhost_marker(), 0);
    if m == -1 {
        let w = choose|i: int| is_match_at(l, localhost_marker(), i);
        assert(is_match_at(l, localhost_marker(), w));
        assert(false);
    }
    let sl = first_char_from(l, '/', m);
    lemma_first_char_from(l, '/', m);
    if sl == -1 {
        let j = choose|j: int| m <= j < l.len() && l[j] == '/';
        assert(false);
    }
}

/// An absent or empty raw stack yields empty projections: its location is
/// the empty string, and so are the last `#`- and `/`-separated segments.
pub proof fn lemma_absent_stack_empty_projections()
    ensures
        location_spec(parsed_lines(Seq::<char>::empty())) == Seq::<char>::empty(),
        split_on(location_spec(parsed_lines(Seq::<char>::empty())), '#').last()
            == Seq::<char>::empty(),
        split_on(location_spec(parsed_lines(Seq::<char>::empty())), '/').last()
            == Seq::<char>::empty(),
{
    reveal_strlit("node_modules");
    reveal_strlit("forEach@[native code]");
    reveal_strlit("localhost:");
    let e = Seq::<char>::empty();
    assert(parsed_lines(e) == seq![e]);
    assert(!contains_sub(e, vendor_marker())) by {
        if contains_sub(e, vendor_marker()) {
            let i = choose|i: int| is_match_at(e, vendor_marker(), i);
            assert(i + vendor_marker().len() <= 0);
        }
    }
    assert(!contains_sub(e, native_marker())) by {
        if contains_sub(e, native_marker()) {
            let i = choose|i: int| is_match_at(e, native_marker(), i);
            assert(i + native_marker().len() <= 0);
        }
    }
    assert(keep_frame(e));
    assert(first_match_from(e, localhost_marker(), 0) == -1);
    assert(strip_localhost_spec(e) == e);
    let lines = seq![e];
    assert(lines.drop_last() =~= Seq::<Seq<char>>::empty());
    assert(location_segments(lines.drop_last()) == Seq::<Seq<char>>::empty());
    assert(lines.last() == e);
    assert(location_segments(lines) == Seq::<Seq<char>>::empty().push(e));
    assert(Seq::<Seq<char>>::empty().push(e) =~= seq![e]);
    assert(location_spec(lines) == e);
    assert(split_on(e, '#') == seq![e]);
    assert(split_on(e, '/') == seq![e]);
}

} // verus!
