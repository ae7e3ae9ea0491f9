//! Small string helpers shared by the DOM post-processing passes: splitting
//! attribute values on whitespace and normalising runs of spaces.

use vstd::prelude::*;
use vstd::string::*;

verus! {

/// Whether `char::is_whitespace` holds of the character; the result depends
/// on the character alone.
pub uninterp spec fn is_unicode_ws(c: char) -> bool;

/// Relies on char::is_whitespace; within ASCII the White_Space property
/// holds of exactly the space and the five controls from tab to carriage
/// return.
#[verifier::external_body]
fn char_is_whitespace(c: char) -> (r: bool)
    ensures
        r == is_unicode_ws(c),
        (c as u32) < 128 ==> (r <==> (c == ' ' || (9 <= (c as u32) && (c as u32) <= 13))),
{
    c.is_whitespace()
}

/// Relies on String::push: appends exactly the given character.
pub assume_specification[ String::push ](s: &mut String, c: char)
    ensures
        final(s)@ == old(s)@.push(c),
;

/// The characters of the string, as an indexable vector.
pub fn chars_of(s: &str) -> (r: Vec<char>)
    ensures
        r@ == s@,
{
    let n = s.unicode_len();
    let mut r: Vec<char> = Vec::new();
    let mut i: usize = 0;
    while i < n
        invariant
            n == s@.len(),
            i <= n,
            r@ == s@.take(i as int),
        decreases n - i,
    {
        r.push(s.get_char(i));
        proof {
            assert(r@ =~= s@.take(i + 1));
        }
        i += 1;
    }
    proof {
        assert(r@ =~= s@);
    }
    r
}

/// Whether the two strings hold the same characters.
pub fn str_eq(a: &str, b: &str) -> (r: bool)
    ensures
        r == (a@ == b@),
{
    let n = a.unicode_len();
    let m = b.unicode_len();
    if n != m {
        return false;
    }
    let mut i: usize = 0;
    while i < n
        invariant
            n == a@.len(),
            n == b@.len(),
            i <= n,
            forall|k: int| 0 <= k < i ==> a@[k] == b@[k],
        decreases n - i,
    {
        if a.get_char(i) != b.get_char(i) {
            return false;
        }
        i += 1;
    }
    proof {
        assert(a@ =~= b@);
    }
    true
}

/// State of the whitespace-splitting scan: the tokens finished so far and
/// the run currently being read.
pub ghost struct ScanState {
    pub done: Seq<Seq<char>>,
    pub cur: Seq<char>,
}

/// One character of the scan: newlines vanish, a space closes the current
/// run (if any), anything else extends it.
pub open spec fn scan_step(st: ScanState, c: char) -> ScanState {
    if c == '\n' {
        st
    } else if c == ' ' {
        if st.cur.len() > 0 {
            ScanState { done: st.done.push(st.cur), cur: Seq::empty() }
        } else {
            st
        }
    } else {
        ScanState { done: st.done, cur: st.cur.push(c) }
    }
}

pub open spec fn scan_prefix(s: Seq<char>, i: int) -> ScanState
    decreases i,
{
    if i <= 0 {
        ScanState { done: Seq::empty(), cur: Seq::empty() }
    } else {
        scan_step(scan_prefix(s, i - 1), s[i - 1])
    }
}

/// The maximal space-free runs of `s` (newlines removed), in order.
pub open spec fn ws_tokens(s: Seq<char>) -> Seq<Seq<char>> {
    let st = scan_prefix(s, s.len() as int);
    if st.cur.len() > 0 {
        st.done.push(st.cur)
    } else {
        st.done
    }
}

/// The tokens joined back together with single spaces.
pub open spec fn join_spaces(ts: Seq<Seq<char>>) -> Seq<char>
    decreases ts.len(),
{
    if ts.len() == 0 {
        Seq::empty()
    } else if ts.len() == 1 {
        ts[0]
    } else {
        join_spaces(ts.drop_last()) + seq![' '] + ts.last()
    }
}

/// Splits on spaces, dropping newlines and empty runs.
pub fn split_by_whitespace_trimmed(s: &str) -> (r: Vec<String>)
    ensures
        r@.map_values(|t: String| t@) == ws_tokens(s@),
{
    let cs = chars_of(s);
    let mut done: Vec<String> = Vec::new();
    let mut cur: String = String::new();
    let mut i: usize = 0;
    while i < cs.len()
        invariant
            cs@ == s@,
            i <= cs@.len(),
            done@.map_values(|t: String| t@) == scan_prefix(s@, i as int).done,
            cur@ == scan_prefix(s@, i as int).cur,
        decreases cs@.len() - i,
    {
        let ghost pre_done = done@.map_values(|t: String| t@);
        let c = cs[i];
        if c == '\n' {
        } else if c == ' ' {
            if !cur.as_str().is_empty() {
                done.push(cur);
                cur = String::new();
                proof {
                    assert(done@.map_values(|t: String| t@) =~= pre_done.push(
                        scan_prefix(s@, i as int).cur,
                    ));
                }
            }
        } else {
            cur.push(c);
        }
        i += 1;
    }
    if !cur.as_str().is_empty() {
        done.push(cur);
        proof {
            assert(done@.map_values(|t: String| t@) =~= ws_tokens(s@));
        }
    }
    done
}

/// Collapses whitespace: newlines removed, runs of spaces reduced to one,
/// leading and trailing spaces dropped.
pub fn remove_trailing_spaces(s: &str) -> (r: String)
    ensures
        r@ == join_spaces(ws_tokens(s@)),
{
    let toks = split_by_whitespace_trimmed(s);
    let ghost ts = ws_tokens(s@);
    let mut r = String::new();
    let mut i: usize = 0;
    while i < toks.len()
        invariant
            toks@.map_values(|t: String| t@) == ts,
            i <= ts.len(),
            r@ == join_spaces(ts.take(i as int)),
        decreases toks@.len() - i,
    {
        if i > 0 {
            r.append(" ");
        }
        r.append(toks[i].as_str());
        proof {
            reveal_strlit(" ");
            assert(ts.take(i + 1).drop_last() =~= ts.take(i as int));
            assert(ts.take(i + 1).last() == ts[i as int]);
            if i == 0 {
                assert(r@ =~= join_spaces(ts.take(1)));
            } else {
                assert(r@ =~= join_spaces(ts.take(i as int)) + seq![' '] + ts[i as int]);
            }
        }
        i += 1;
    }
    proof {
        assert(ts.take(ts.len() as int) =~= ts);
    }
    r
}

/// The string with leading Unicode whitespace removed.
pub open spec fn trim_start_spec(s: Seq<char>) -> Seq<char>
    decreases s.len(),
{
    if s.len() > 0 && is_unicode_ws(s[0]) {
        trim_start_spec(s.drop_first())
    } else {
        s
    }
}

/// The string with trailing Unicode whitespace removed.
pub open spec fn trim_end_spec(s: Seq<char>) -> Seq<char>
    decreases s.len(),
{
    if s.len() > 0 && is_unicode_ws(s.last()) {
        trim_end_spec(s.drop_last())
    } else {
        s
    }
}

/// The prefix up to (excluding) the first space.
pub open spec fn upto_space(s: Seq<char>) -> Seq<char>
    decreases s.len(),
{
    if s.len() == 0 {
        Seq::empty()
    } else if s[0] == ' ' {
        Seq::empty()
    } else {
        seq![s[0]] + upto_space(s.drop_first())
    }
}

/// The first space-delimited token of the trimmed string.
pub open spec fn first_token(s: Seq<char>) -> Seq<char> {
    upto_space(trim_end_spec(trim_start_spec(s)))
}

/// The first space-delimited token after trimming surrounding whitespace;
/// empty when the string holds only whitespace.
pub fn first_until_whitespace(s: &str) -> (r: String)
    ensures
        r@ == first_token(s@),
{
    let cs = chars_of(s);
    proof {
        assert(s@.skip(0) =~= s@);
    }
    let mut start: usize = 0;
    while start < cs.len() && char_is_whitespace(cs[start])
        invariant
            cs@ == s@,
            start <= cs@.len(),
            trim_start_spec(s@) == trim_start_spec(s@.skip(start as int)),
        decreases cs@.len() - start,
    {
        proof {
            assert(s@.skip(start as int).drop_first() =~= s@.skip(start + 1));
        }
        start += 1;
    }
    let mut end: usize = cs.len();
    proof {
        assert(s@.skip(start as int).take(end - start) =~= s@.skip(start as int));
    }
    while end > start && char_is_whitespace(cs[end - 1])
        invariant
            cs@ == s@,
            start <= end <= cs@.len(),
            trim_start_spec(s@) == s@.skip(start as int),
            trim_end_spec(s@.skip(start as int)) == trim_end_spec(
                s@.skip(start as int).take(end - start),
            ),
        decreases end,
    {
        proof {
            let t = s@.skip(start as int).take(end - start);
            assert(t.last() == s@[end - 1]);
            assert(t.drop_last() =~= s@.skip(start as int).take(end - 1 - start));
        }
        end -= 1;
    }
    proof {
        let t = s@.skip(start as int).take(end - start);
        if end > start {
            assert(!is_unicode_ws(t.last()));
        }
        assert(trim_end_spec(trim_start_spec(s@)) == t);
    }
    let ghost t = s@.skip(start as int).take(end - start);
    proof {
        assert(t.skip(0) =~= t);
        assert(t.take(0) =~= Seq::<char>::empty());
    }
    let mut r = String::new();
    let mut i: usize = start;
    while i < end && cs[i] != ' '
        invariant
            cs@ == s@,
            start <= i <= end <= cs@.len(),
            t == s@.skip(start as int).take(end - start),
            forall|k: int| start <= k < i ==> s@[k] != ' ',
            r@ == t.take(i - start),
            upto_space(t) == t.take(i - start) + upto_space(t.skip(i - start)),
        decreases end - i,
    {
        r.push(cs[i]);
        proof {
            let off = i - start;
            assert(t.skip(off)[0] == s@[i as int]);
            assert(t.skip(off).drop_first() =~= t.skip(off + 1));
            assert(upto_space(t.skip(off)) == seq![t.skip(off)[0]] + upto_space(t.skip(off + 1)));
            assert(t.take(off) + seq![t.skip(off)[0]] =~= t.take(off + 1));
            assert(t.take(off + 1) + upto_space(t.skip(off + 1)) =~= t.take(off) + upto_space(
                t.skip(off),
            ));
        }
        i += 1;
    }
    proof {
        if i < end {
            assert(t.skip(i - start)[0] == ' ');
            assert(upto_space(t.skip(i - start)) =~= Seq::<char>::empty());
        } else {
            assert(t.skip(i - start) =~= Seq::<char>::empty());
        }
        assert(r@ =~= upto_space(t));
    }
    r
}

} // verus!
