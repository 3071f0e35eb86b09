//! Cleanup of folded stack lines before flamegraph rendering: thread names
//! of the form `ThreadId(N)-...` are simplified so that stacks from
//! different worker threads consolidate.

use vstd::prelude::*;

use crate::text::{
    find_sub, first_match_from, from_chars, head_to, is_match_at, lemma_first_match_from,
    starts_with_chars, tail_from, to_chars, views_of,
};

verus! {

/// The last position of `c` in `s`, or -1 if it does not occur.
pub open spec fn last_index_of(s: Seq<char>, c: char) -> int
    decreases s.len(),
{
    if s.len() == 0 {
        -1
    } else if s.last() == c {
        s.len() - 1
    } else {
        last_index_of(s.drop_last(), c)
    }
}

/// With no occurrence of `c` at or after `j`, the last occurrence lies in
/// the prefix.
proof fn lemma_last_index_take(s: Seq<char>, c: char, j: int)
    requires
        0 <= j <= s.len(),
        forall|k: int| j <= k < s.len() ==> s[k] != c,
    ensures
        last_index_of(s, c) == last_index_of(s.take(j), c),
    decreases s.len() - j,
{
    if j == s.len() {
        assert(s.take(j) =~= s);
    } else {
        lemma_last_index_take(s, c, j + 1);
        assert(s.take(j + 1).last() == s[j]);
        assert(s.take(j + 1).drop_last() =~= s.take(j));
    }
}

/// The simplified thread part of a folded stack line: a
/// `ThreadId(N)-`-prefixed name loses the id, and a tokio runtime worker
/// name is consolidated to `tokio-worker`.
pub open spec fn simplify_stack_part(stack: Seq<char>) -> Seq<char> {
    if is_match_at(stack, "ThreadId("@, 0) {
        let d = first_match_from(stack, ")-"@, 0);
        if d >= 0 {
            let after = stack.skip(d + ")-"@.len());
            if is_match_at(after, "tokio-runtime-worker"@, 0) {
                "tokio-worker"@ + after.skip("tokio-runtime-worker"@.len() as int)
            } else {
                after
            }
        } else {
            stack
        }
    } else {
        stack
    }
}

/// A folded stack line with its thread name simplified: the part before the
/// last space (the stack) is cleaned, the part from the last space on (the
/// sample count) is kept; a line without a space is unchanged.
pub open spec fn simplify_spec(l: Seq<char>) -> Seq<char> {
    let sp = last_index_of(l, ' ');
    if sp == -1 {
        l
    } else {
        simplify_stack_part(l.take(sp)) + l.skip(sp)
    }
}

/// Simplifies thread names in one folded stack line, so that stacks from
/// different worker threads consolidate under one name.
pub fn simplify_thread_names(line: &str) -> (r: String)
    ensures
        r@ == simplify_spec(line@),
{
    let chars = to_chars(line);
    let mut j: usize = chars.len();
    while j > 0
        invariant
            0 <= j <= chars@.len(),
            chars@ == line@,
            forall|k: int| j <= k < chars@.len() ==> chars@[k] != ' ',
        decreases j,
    {
        if chars[j - 1] == ' ' {
            proof {
                lemma_last_index_take(line@, ' ', j as int);
                assert(line@.take(j as int).last() == line@[j - 1]);
            }
            let stack = head_to(&chars, j - 1);
            let count = tail_from(&chars, j - 1);
            proof {
                assert(line@.take(j as int).drop_last() =~= line@.take(j - 1));
                assert(last_index_of(line@, ' ') == j - 1);
            }
            let simplified = simplify_stack_chars(&stack);
            let mut r = from_chars(&simplified);
            r.append(from_chars(&count).as_str());
            return r;
        }
        j = j - 1;
    }
    proof {
        lemma_last_index_take(line@, ' ', 0);
        assert(line@.take(0) =~= Seq::<char>::empty());
        assert(last_index_of(line@, ' ') == -1);
    }
    from_chars(&chars)
}

/// Simplifies the thread part of one folded line.
fn simplify_stack_chars(stack: &Vec<char>) -> (r: Vec<char>)
    ensures
        r@ == simplify_stack_part(stack@),
{
    let thread_marker = to_chars("ThreadId(");
    if !starts_with_chars(stack, &thread_marker) {
        return stack.clone();
    }
    let dash_marker = to_chars(")-");
    let d = match find_sub(stack, &dash_marker) {
        None => {
            return stack.clone();
        },
        Some(d) => d,
    };
    let slen = stack.len();
    proof {
        lemma_first_match_from(stack@, ")-"@, 0);
        reveal_strlit(")-");
        assert(d + 2 <= slen);
    }
    let after = tail_from(stack, d + 2);
    let tokio_marker = to_chars("tokio-runtime-worker");
    if starts_with_chars(&after, &tokio_marker) {
        proof {
            reveal_strlit("tokio-runtime-worker");
        }
        let tail = tail_from(&after, 20);
        let consolidated = to_chars("tokio-worker");
        let mut r = consolidated;
        let ghost r_old = r@;
        let mut i: usize = 0;
        while i < tail.len()
            invariant
                0 <= i <= tail@.len(),
                r@ == r_old + tail@.take(i as int),
            decreases tail@.len() - i,
        {
            r.push(tail[i]);
            proof {
                assert(r_old + tail@.take(i + 1) =~= (r_old + tail@.take(i as int)).push(
                    tail@[i as int],
                ));
            }
            i = i + 1;
        }
        proof {
            assert(tail@.take(tail@.len() as int) =~= tail@);
        }
        r
    } else {
        after
    }
}

/// Simplifies the thread names of every folded stack line, in order: the
/// text transformation applied to a folded file before rendering.
pub fn simplify_folded_lines(lines: &Vec<String>) -> (r: Vec<String>)
    ensures
        r@.len() == lines@.len(),
        forall|i: int| 0 <= i < lines@.len() ==> (#[trigger] r@[i])@ == simplify_spec(lines@[i]@),
{
    let mut r: Vec<String> = Vec::new();
    let mut i: usize = 0;
    while i < lines.len()
        invariant
            0 <= i <= lines@.len(),
            r@.len() == i,
            forall|k: int| 0 <= k < i ==> (#[trigger] r@[k])@ == simplify_spec(lines@[k]@),
        decreases lines@.len() - i,
    {
        r.push(simplify_thread_names(lines[i].as_str()));
        i = i + 1;
    }
    r
}

} // verus!
