//! Text helpers.

use vstd::prelude::*;
use vstd::std_specs::iter::IteratorSpec;

verus! {

/// The number of characters of `s` before its first newline, or the
/// length of `s` where it has none.
pub open spec fn line_end(s: Seq<char>) -> nat
    decreases s.len(),
{
    if s.len() == 0 || s[0] == '\n' {
        0
    } else {
        1 + line_end(s.drop_first())
    }
}

/// `line` without the spaces it starts with.
pub open spec fn trim_leading_spaces(line: Seq<char>) -> Seq<char>
    decreases line.len(),
{
    if line.len() > 0 && line[0] == ' ' {
        trim_leading_spaces(line.drop_first())
    } else {
        line
    }
}

/// Each newline-separated line of `s`, in order, with its leading spaces
/// removed and followed by a newline.
pub open spec fn dedented(s: Seq<char>) -> Seq<char>
    decreases s.len(),
{
    let n = line_end(s) as int;
    let line = trim_leading_spaces(s.take(n)).push('\n');
    if n < s.len() {
        line + dedented(s.skip(n + 1))
    } else {
        line
    }
}

/// What a left-to-right scan writes for `s`: spaces at the start of a
/// line are dropped, every other character is copied.
spec fn scan(s: Seq<char>, at_line_start: bool) -> Seq<char>
    decreases s.len(),
{
    if s.len() == 0 {
        Seq::empty()
    } else if s[0] == '\n' {
        seq!['\n'] + scan(s.drop_first(), true)
    } else if at_line_start && s[0] == ' ' {
        scan(s.drop_first(), true)
    } else {
        seq![s[0]] + scan(s.drop_first(), false)
    }
}

proof fn lemma_line_end_bound(s: Seq<char>)
    ensures
        line_end(s) <= s.len(),
        line_end(s) < s.len() ==> s[line_end(s) as int] == '\n',
        forall|i: int| 0 <= i < line_end(s) ==> s[i] != '\n',
    decreases s.len(),
{
    if s.len() > 0 && s[0] != '\n' {
        lemma_line_end_bound(s.drop_first());
        assert forall|i: int| 0 <= i < line_end(s) implies s[i] != '\n' by {
            if i > 0 {
                assert(s[i] == s.drop_first()[i - 1]);
            }
        }
    }
}

/// In the middle of a line, the scan copies the rest of the line.
proof fn lemma_scan_mid_line(s: Seq<char>)
    ensures
        ({
            let n = line_end(s) as int;
            scan(s, false) == if n < s.len() {
                s.take(n) + seq!['\n'] + scan(s.skip(n + 1), true)
            } else {
                s.take(n)
            }
        }),
    decreases s.len(),
{
    lemma_line_end_bound(s);
    let n = line_end(s) as int;
    if s.len() == 0 {
        assert(s.take(0) =~= Seq::<char>::empty());
    } else if s[0] == '\n' {
        assert(s.take(0) =~= Seq::<char>::empty());
        assert(s.skip(1) =~= s.drop_first());
        assert(scan(s, false) =~= seq!['\n'] + scan(s.skip(1), true));
    } else {
        let t = s.drop_first();
        lemma_scan_mid_line(t);
        assert(s.take(n) =~= seq![s[0]] + t.take(n - 1));
        if n < s.len() {
            assert(s.skip(n + 1) =~= t.skip(n));
            assert(scan(s, false) =~= s.take(n) + seq!['\n'] + scan(s.skip(n + 1), true));
        } else {
            assert(scan(s, false) =~= s.take(n));
        }
    }
}

/// Scanning from the start of a line, then adding a final newline, gives
/// the dedented text.
proof fn lemma_scan_dedented(s: Seq<char>)
    ensures
        scan(s, true).push('\n') == dedented(s),
    decreases s.len(),
{
    lemma_line_end_bound(s);
    let n = line_end(s) as int;
    if s.len() == 0 {
        assert(s.take(0) =~= Seq::<char>::empty());
        assert(scan(s, true).push('\n') =~= dedented(s));
    } else if s[0] == '\n' {
        let t = s.drop_first();
        lemma_scan_dedented(t);
        assert(s.take(0) =~= Seq::<char>::empty());
        assert(s.skip(1) =~= t);
        assert(scan(s, true).push('\n') =~= dedented(s));
    } else if s[0] == ' ' {
        let t = s.drop_first();
        lemma_scan_dedented(t);
        lemma_line_end_bound(t);
        assert(s.take(n).drop_first() =~= t.take(n - 1));
        assert(trim_leading_spaces(s.take(n)) == trim_leading_spaces(t.take(n - 1)));
        if n < s.len() {
            assert(s.skip(n + 1) =~= t.skip(n));
        }
        assert(scan(s, true).push('\n') =~= dedented(s));
    } else {
        let t = s.drop_first();
        lemma_scan_mid_line(t);
        lemma_line_end_bound(t);
        assert(s.take(n) =~= seq![s[0]] + t.take(n - 1));
        assert(trim_leading_spaces(s.take(n)) == s.take(n));
        if n < s.len() {
            assert(s.skip(n + 1) =~= t.skip(n));
            lemma_scan_dedented(s.skip(n + 1));
        }
        assert(scan(s, true).push('\n') =~= dedented(s));
    }
}

/// No line that the scan writes starts with a space; where it starts in
/// the middle of a line, its first character may.
proof fn lemma_scan_no_leading_space(s: Seq<char>, at_line_start: bool)
    ensures
        forall|i: int| #![trigger scan(s, at_line_start)[i]]
            0 <= i < scan(s, at_line_start).len() && (if i == 0 { at_line_start } else { scan(s, at_line_start)[i - 1] == '\n' })
            ==> scan(s, at_line_start)[i] != ' ',
    decreases s.len(),
{
    if s.len() > 0 {
        let rest = s.drop_first();
        let r = scan(s, at_line_start);
        if s[0] == '\n' {
            lemma_scan_no_leading_space(rest, true);
            let t = scan(rest, true);
            assert forall|i: int| #![trigger r[i]] 0 <= i < r.len() && (if i == 0 { at_line_start } else { r[i - 1] == '\n' })
                implies r[i] != ' ' by {
                if i > 0 {
                    assert(r[i] == t[i - 1]);
                    if i > 1 {
                        assert(r[i - 1] == t[i - 2]);
                    }
                }
            }
        } else if at_line_start && s[0] == ' ' {
            lemma_scan_no_leading_space(rest, true);
            let t = scan(rest, true);
            assert(r == t);
            assert forall|i: int| #![trigger r[i]] 0 <= i < r.len() && (if i == 0 { at_line_start } else { r[i - 1] == '\n' })
                implies r[i] != ' ' by {
                assert(r[i] == t[i]);
            }
        } else {
            lemma_scan_no_leading_space(rest, false);
            let t = scan(rest, false);
            assert forall|i: int| #![trigger r[i]] 0 <= i < r.len() && (if i == 0 { at_line_start } else { r[i - 1] == '\n' })
                implies r[i] != ' ' by {
                if i > 0 {
                    assert(r[i] == t[i - 1]);
                    if i > 1 {
                        assert(r[i - 1] == t[i - 2]);
                    }
                }
            }
        }
    }
}

/// Dedented text ends with a newline, and none of its lines starts with a
/// space.
pub proof fn law_dedented_lines_start_without_space(s: Seq<char>)
    ensures
        dedented(s).len() > 0,
        dedented(s).last() == '\n',
        forall|i: int| #![trigger dedented(s)[i]]
            0 <= i < dedented(s).len() && (i == 0 || dedented(s)[i - 1] == '\n') ==> dedented(s)[i] != ' ',
{
    lemma_scan_dedented(s);
    lemma_scan_no_leading_space(s, true);
    let r = scan(s, true);
    assert forall|i: int| 0 <= i < r.len() implies dedented(s)[i] == r[i] by {}
}

/// Calls `String::push`, which appends `c` to the end of `s`; claimed: the
/// characters of `s` afterwards are those before, then `c`.
#[verifier::external_body]
fn push_char(s: &mut String, c: char)
    ensures
        final(s)@ == old(s)@.push(c),
{
    s.push(c);
}

/// Removes the spaces at the start of each line of `text` and ends every
/// line, the last one included, with a newline.
pub fn naive_dedent(text: &str) -> (result: String)
    ensures
        result@ == dedented(text@),
{
    let mut result = String::new();
    let mut at_line_start = true;
    proof {
        assert(text@.skip(0) =~= text@);
        assert(result@ + scan(text@, true) =~= scan(text@, true));
    }
    for ch in it: text.chars()
        invariant
            it.seq() == text@,
            result@ + scan(text@.skip(it.index()), at_line_start) == scan(text@, true),
    {
        let ghost i = it.index();
        let ghost before = result@;
        let ghost flag = at_line_start;
        proof {
            let rest = text@.skip(i);
            assert(rest[0] == ch);
            assert(rest.drop_first() =~= text@.skip(i + 1));
        }
        if ch == '\n' {
            push_char(&mut result, '\n');
            at_line_start = true;
        } else if at_line_start && ch == ' ' {
        } else {
            push_char(&mut result, ch);
            at_line_start = false;
        }
        proof {
            let rest = text@.skip(i);
            assert(result@ + scan(text@.skip(i + 1), at_line_start) =~= before + scan(rest, flag));
        }
    }
    push_char(&mut result, '\n');
    proof {
        assert(text@.skip(text@.len() as int) =~= Seq::<char>::empty());
        lemma_scan_dedented(text@);
    }
    result
}

} // verus!
