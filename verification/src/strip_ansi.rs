//! ANSI escape stripping for clean file output: removes Select Graphic
//! Rendition (color/style) sequences from byte streams at write time, with a
//! fast path when no escape byte is present.

use vstd::prelude::*;

verus! {

/// The escape byte that starts an ANSI sequence.
pub open spec fn esc_byte() -> u8 {
    0x1b
}

/// The `[` byte that follows the escape byte in an SGR sequence.
pub open spec fn bracket_byte() -> u8 {
    0x5b
}

/// A byte that may appear in the body of an SGR sequence: an ASCII digit or
/// a semicolon.
pub open spec fn is_sgr_body(b: u8) -> bool {
    (0x30 <= b <= 0x39) || b == 0x3b
}

/// The stripped remainder of `s` from position `i` on, outside any escape
/// sequence.
///
/// An escape byte immediately followed by `[` opens an SGR sequence, which
/// is consumed by `skip_sgr`; any other byte, including an escape byte not
/// followed by `[`, is kept verbatim.
pub open spec fn strip_from(s: Seq<u8>, i: int) -> Seq<u8>
    decreases s.len() - i, 0int,
{
    if i < 0 || i >= s.len() {
        Seq::<u8>::empty()
    } else if s[i] == esc_byte() && i + 1 < s.len() && s[i + 1] == bracket_byte() {
        skip_sgr(s, i + 2)
    } else {
        seq![s[i]] + strip_from(s, i + 1)
    }
}

/// The proper terminator of an SGR sequence, the byte `m`.
pub open spec fn sgr_terminator() -> u8 {
    0x6d
}

/// The stripped remainder of `s` from position `i` on, inside an SGR
/// sequence: digits and semicolons are consumed; the proper terminator `m`
/// ends the sequence and is consumed with it; any other byte ends the
/// sequence and is the resumption point — it is kept and processed as
/// ordinary text, so a malformed sequence does not corrupt what follows. A
/// sequence left open at the end of the input is consumed to the end.
pub open spec fn skip_sgr(s: Seq<u8>, i: int) -> Seq<u8>
    decreases s.len() - i, 1int,
{
    if i < 0 || i >= s.len() {
        Seq::<u8>::empty()
    } else if s[i] == sgr_terminator() {
        strip_from(s, i + 1)
    } else if is_sgr_body(s[i]) {
        skip_sgr(s, i + 1)
    } else {
        strip_from(s, i)
    }
}

/// The input with every SGR escape sequence removed.
pub open spec fn strip_spec(s: Seq<u8>) -> Seq<u8> {
    strip_from(s, 0)
}

/// Finds the first occurrence of a byte in a slice.
///
/// Relies on `memchr::memchr`: the index of the first occurrence of `needle`
/// in `haystack`, or `None` when it does not occur; a returned index is less
/// than the haystack's length.
#[verifier::external_body]
fn find_byte(needle: u8, haystack: &[u8]) -> (r: Option<usize>)
    ensures
        match r {
            Some(i) => i < haystack@.len() && haystack@[i as int] == needle && forall|j: int|
                0 <= j < i ==> haystack@[j] != needle,
            None => forall|j: int| 0 <= j < haystack@.len() ==> haystack@[j] != needle,
        },
{
    memchr::memchr(needle, haystack)
}

/// A region without the escape byte is kept verbatim.
proof fn lemma_strip_skips_plain(s: Seq<u8>, a: int, k: int)
    requires
        0 <= a <= k <= s.len(),
        forall|j: int| a <= j < k ==> s[j] != esc_byte(),
    ensures
        strip_from(s, a) == s.subrange(a, k) + strip_from(s, k),
    decreases k - a,
{
    if a == k {
        assert(s.subrange(a, k) =~= Seq::<u8>::empty());
        assert(Seq::<u8>::empty() + strip_from(s, k) =~= strip_from(s, k));
    } else {
        lemma_strip_skips_plain(s, a + 1, k);
        assert(seq![s[a]] + (s.subrange(a + 1, k) + strip_from(s, k)) =~= s.subrange(a, k)
            + strip_from(s, k));
    }
}

/// Appends `buf[from .. to]` to `out`.
fn push_range(out: &mut Vec<u8>, buf: &[u8], from: usize, to: usize)
    requires
        from <= to <= buf@.len(),
    ensures
        final(out)@ == old(out)@ + buf@.subrange(from as int, to as int),
{
    let mut i: usize = from;
    proof {
        assert(out@ + buf@.subrange(from as int, from as int) =~= out@);
    }
    while i < to
        invariant
            from <= i <= to <= buf@.len(),
            out@ == old(out)@ + buf@.subrange(from as int, i as int),
        decreases to - i,
    {
        out.push(buf[i]);
        proof {
            assert(old(out)@ + buf@.subrange(from as int, i + 1) =~= (old(out)@ + buf@.subrange(
                from as int,
                i as int,
            )).push(buf@[i as int]));
        }
        i = i + 1;
    }
}

/// Strips ANSI SGR escape sequences from `buf` and appends the result to
/// `out`; returns the number of input bytes processed, which is always the
/// whole input.
///
/// When `buf` holds no escape byte at all it is appended unchanged.
pub fn strip_ansi_and_write(out: &mut Vec<u8>, buf: &[u8]) -> (n: usize)
    ensures
        final(out)@ == old(out)@ + strip_spec(buf@),
        n == buf@.len(),
{
    let n = buf.len();
    let first_esc = match find_byte(0x1b, buf) {
        None => {
            proof {
                lemma_strip_skips_plain(buf@, 0, n as int);
                assert(strip_from(buf@, n as int) == Seq::<u8>::empty());
                assert(buf@.subrange(0, n as int) + Seq::<u8>::empty() =~= buf@);
            }
            push_range(out, buf, 0, n);
            return n;
        },
        Some(first) => first,
    };
    proof {
        lemma_strip_skips_plain(buf@, 0, first_esc as int);
    }
    push_range(out, buf, 0, first_esc);
    let ghost target = old(out)@ + strip_spec(buf@);
    let mut i: usize = first_esc;
    proof {
        assert(out@ + strip_from(buf@, i as int) =~= target);
    }
    while i < n
        invariant
            0 <= i <= n == buf@.len(),
            out@ + strip_from(buf@, i as int) == target,
        decreases n - i,
    {
        if buf[i] == 0x1b && i + 1 < n && buf[i + 1] == 0x5b {
            i = i + 2;
            let ghost i0 = i as int;
            let mut done = false;
            while !done && i < n
                invariant
                    i0 <= i,
                    0 <= i <= n == buf@.len(),
                    !done ==> out@ + skip_sgr(buf@, i as int) == target,
                    done ==> out@ + strip_from(buf@, i as int) == target,
                decreases n - i, (if done { 0int } else { 1int }),
            {
                let c = buf[i];
                if c == 0x6d {
                    i = i + 1;
                    done = true;
                } else if (0x30 <= c && c <= 0x39) || c == 0x3b {
                    i = i + 1;
                } else {
                    done = true;
                }
            }
            proof {
                if !done {
                    assert(skip_sgr(buf@, i as int) == Seq::<u8>::empty());
                    assert(strip_from(buf@, i as int) == Seq::<u8>::empty());
                }
            }
        } else {
            let ghost out_old = out@;
            out.push(buf[i]);
            proof {
                assert(out@ =~= out_old.push(buf@[i as int]));
                assert(out_old + (seq![buf@[i as int]] + strip_from(buf@, i + 1)) =~= out@
                    + strip_from(buf@, i + 1));
            }
            i = i + 1;
        }
    }
    proof {
        assert(strip_from(buf@, n as int) == Seq::<u8>::empty());
        assert(out@ + Seq::<u8>::empty() =~= out@);
    }
    n
}

/// Strips ANSI SGR escape sequences from `buf`, returning the cleaned bytes.
pub fn strip_ansi(buf: &[u8]) -> (out: Vec<u8>)
    ensures
        out@ == strip_spec(buf@),
{
    let mut out: Vec<u8> = Vec::new();
    strip_ansi_and_write(&mut out, buf);
    out
}

/// A byte-sink wrapper that strips ANSI escape sequences from everything
/// written through it, accumulating the cleaned bytes.
pub struct StripAnsiWriter {
    inner: Vec<u8>,
}

impl View for StripAnsiWriter {
    type V = Seq<u8>;

    closed spec fn view(&self) -> Seq<u8> {
        self.inner@
    }
}

impl StripAnsiWriter {
    /// Creates a writer over the given sink contents.
    pub fn new(inner: Vec<u8>) -> (r: Self)
        ensures
            r@ == inner@,
    {
        StripAnsiWriter { inner }
    }

    /// Writes `buf` through the stripper: the cleaned bytes are appended to
    /// the sink, and the whole input counts as written.
    pub fn write(&mut self, buf: &[u8]) -> (n: usize)
        ensures
            final(self)@ == old(self)@ + strip_spec(buf@),
            n == buf@.len(),
    {
        strip_ansi_and_write(&mut self.inner, buf)
    }

    /// The bytes accumulated in the sink so far.
    pub fn contents(&self) -> (r: &Vec<u8>)
        ensures
            r@ == self@,
    {
        &self.inner
    }

    /// Consumes the writer, handing back the sink.
    pub fn into_inner(self) -> (r: Vec<u8>)
        ensures
            r@ == self@,
    {
        self.inner
    }
}

/// No byte of `y` is an escape byte directly followed by `[`.
pub open spec fn sgr_free(y: Seq<u8>) -> bool {
    forall|i: int| 0 <= i && i + 1 < y.len() ==> !(#[trigger] y[i] == esc_byte() && y[i + 1] == bracket_byte())
}

/// Text without an opening `ESC [` pair passes through unchanged.
proof fn lemma_strip_sgr_free_from(y: Seq<u8>, k: int)
    requires
        0 <= k <= y.len(),
        sgr_free(y),
    ensures
        strip_from(y, k) == y.skip(k),
    decreases y.len() - k,
{
    if k == y.len() {
        assert(y.skip(k) =~= Seq::<u8>::empty());
    } else {
        lemma_strip_sgr_free_from(y, k + 1);
        assert(!(y[k] == esc_byte() && k + 1 < y.len() && y[k + 1] == bracket_byte()));
        assert(seq![y[k]] + y.skip(k + 1) =~= y.skip(k));
    }
}

/// Stripping text that holds no `ESC [` pair is a no-op.
pub proof fn lemma_strip_sgr_free_identity(y: Seq<u8>)
    requires
        sgr_free(y),
    ensures
        strip_spec(y) == y,
{
    lemma_strip_sgr_free_from(y, 0);
    assert(y.skip(0) =~= y);
}

/// Stripping input without any escape byte is a no-op: the fast path returns
/// the input unchanged.
pub proof fn lemma_strip_no_escape_identity(s: Seq<u8>)
    requires
        forall|i: int| 0 <= i < s.len() ==> s[i] != esc_byte(),
    ensures
        strip_spec(s) == s,
{
    lemma_strip_sgr_free_identity(s);
}

/// When the first byte of the remainder is not an escape byte, the stripped
/// remainder starts with it.
proof fn lemma_strip_first_plain(s: Seq<u8>, j: int)
    requires
        0 <= j < s.len(),
        s[j] != esc_byte(),
    ensures
        strip_from(s, j).len() > 0,
        strip_from(s, j)[0] == s[j],
{
}

/// Without two adjacent escape bytes in the input, the stripped output holds
/// no `ESC [` pair.
proof fn lemma_strip_output_sgr_free(s: Seq<u8>, k: int)
    requires
        0 <= k,
        forall|i: int| 0 <= i && i + 1 < s.len() ==> !(#[trigger] s[i] == esc_byte() && s[i + 1] == esc_byte()),
    ensures
        sgr_free(strip_from(s, k)),
        sgr_free(skip_sgr(s, k)),
    decreases s.len() + 1 - k,
{
    if k >= s.len() {
    } else {
        lemma_strip_output_sgr_free(s, k + 1);
        if k + 2 <= s.len() + 1 {
            lemma_strip_output_sgr_free(s, k + 2);
        }
        if s[k] == esc_byte() && k + 1 < s.len() && s[k + 1] == bracket_byte() {
        } else {
            let t = strip_from(s, k + 1);
            let r = seq![s[k]] + t;
            assert(strip_from(s, k) == r);
            assert forall|i: int| 0 <= i && i + 1 < r.len() implies !(#[trigger] r[i] == esc_byte()
                && r[i + 1] == bracket_byte()) by {
                if i == 0 {
                    if s[k] == esc_byte() {
                        if k + 1 < s.len() {
                            assert(s[k + 1] != esc_byte());
                            assert(s[k + 1] != bracket_byte());
                            lemma_strip_first_plain(s, k + 1);
                            assert(r[1] == t[0]);
                        }
                    }
                } else {
                    assert(r[i] == t[i - 1] && r[i + 1] == t[i]);
                }
            }
        }
    }
}

/// Stripping is idempotent: stripping already-stripped text is a no-op, as
/// long as the input does not hold two adjacent escape bytes (an escape byte
/// directly before a stripped sequence can otherwise splice a new `ESC [`
/// pair into the output).
pub proof fn lemma_strip_idempotent(s: Seq<u8>)
    requires
        forall|i: int| 0 <= i && i + 1 < s.len() ==> !(#[trigger] s[i] == esc_byte() && s[i + 1] == esc_byte()),
    ensures
        strip_spec(strip_spec(s)) == strip_spec(s),
{
    lemma_strip_output_sgr_free(s, 0);
    lemma_strip_sgr_free_identity(strip_spec(s));
}

} // verus!
