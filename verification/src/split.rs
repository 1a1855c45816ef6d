//! Splitting enumerator output into lines, and lines into
//! whitespace-separated fields.

use vstd::prelude::*;

verus! {

use crate::text::{is_space, is_space_char, scan_to, lemma_scan_to, lemma_scan_to_is};

/// The views of a sequence of character vectors.
pub open spec fn views_of(fs: Seq<Vec<char>>) -> Seq<Seq<char>> {
    fs.map_values(|f: Vec<char>| f@)
}

pub open spec fn space_pred() -> spec_fn(char) -> bool {
    |c: char| is_space(c)
}

pub open spec fn newline_pred() -> spec_fn(char) -> bool {
    |c: char| c == '\n'
}

/// The whitespace-separated fields of `s`, from position `i` on.
pub open spec fn split_ws_from(s: Seq<char>, i: int) -> Seq<Seq<char>>
    decreases s.len() - i,
{
    if i < 0 || i >= s.len() {
        Seq::empty()
    } else if is_space(s[i]) {
        split_ws_from(s, i + 1)
    } else {
        let j = scan_to(s, i + 1, space_pred());
        proof {
            lemma_scan_to(s, i + 1, space_pred());
        }
        seq![s.subrange(i, j)] + split_ws_from(s, j)
    }
}

/// The whitespace-separated fields of `s`.
pub open spec fn split_ws(s: Seq<char>) -> Seq<Seq<char>> {
    split_ws_from(s, 0)
}

/// Copy a range of a character vector.
pub fn copy_range(v: &Vec<char>, a: usize, b: usize) -> (r: Vec<char>)
    requires
        a <= b && b <= v.len(),
    ensures
        r@ == v@.subrange(a as int, b as int),
{
    let mut r: Vec<char> = Vec::new();
    let mut k: usize = a;
    while k < b
        invariant
            a <= k <= b <= v.len(),
            r@ == v@.subrange(a as int, k as int),
        decreases b - k,
    {
        r.push(v[k]);
        k = k + 1;
        proof {
            assert(v@.subrange(a as int, k as int) =~= v@.subrange(a as int, k - 1).push(
                v@[k - 1],
            ));
        }
    }
    r
}

/// Split a line into its whitespace-separated fields.
pub fn split_fields(line: &Vec<char>) -> (fs: Vec<Vec<char>>)
    ensures
        views_of(fs@) == split_ws(line@),
{
    let mut fs: Vec<Vec<char>> = Vec::new();
    let mut i: usize = 0;
    proof {
        assert(views_of(fs@) + split_ws_from(line@, 0) =~= split_ws(line@));
    }
    while i < line.len()
        invariant
            i <= line.len(),
            views_of(fs@) + split_ws_from(line@, i as int) == split_ws(line@),
        decreases line.len() - i,
    {
        if is_space_char(line[i]) {
            i = i + 1;
        } else {
            let start = i;
            i = i + 1;
            while i < line.len() && !is_space_char(line[i])
                invariant
                    start < i <= line.len(),
                    forall|k: int| start + 1 <= k < i ==> !space_pred()(line@[k]),
                decreases line.len() - i,
            {
                i = i + 1;
            }
            proof {
                if i < line.len() {
                    assert(space_pred()(line@[i as int]));
                }
                lemma_scan_to_is(line@, start + 1, space_pred(), i as int);
            }
            let tok = copy_range(line, start, i);
            let ghost prev = fs@;
            fs.push(tok);
            proof {
                assert(views_of(fs@) =~= views_of(prev).push(tok@));
                assert(split_ws_from(line@, start as int) == seq![
                    line@.subrange(start as int, i as int),
                ] + split_ws_from(line@, i as int));
                assert(views_of(fs@) + split_ws_from(line@, i as int) =~= views_of(prev)
                    + split_ws_from(line@, start as int));
            }
        }
    }
    proof {
        assert(views_of(fs@) =~= split_ws(line@));
    }
    fs
}

/// One trailing carriage return is removed from a line that was terminated
/// by a newline.
pub open spec fn strip_cr(l: Seq<char>) -> Seq<char> {
    if l.len() > 0 && l.last() == '\r' {
        l.drop_last()
    } else {
        l
    }
}

/// The lines of `s` from position `i` on: line terminators are `\n` or
/// `\r\n`, and the final terminator is optional.
pub open spec fn lines_from(s: Seq<char>, i: int) -> Seq<Seq<char>>
    decreases s.len() - i,
{
    if i < 0 || i >= s.len() {
        Seq::empty()
    } else {
        let j = scan_to(s, i, newline_pred());
        proof {
            lemma_scan_to(s, i, newline_pred());
        }
        if j >= s.len() {
            seq![s.subrange(i, s.len() as int)]
        } else {
            seq![strip_cr(s.subrange(i, j))] + lines_from(s, j + 1)
        }
    }
}

/// The lines of `s`.
pub open spec fn lines_of(s: Seq<char>) -> Seq<Seq<char>> {
    lines_from(s, 0)
}

/// Split text into lines.
pub fn split_lines(text: &Vec<char>) -> (ls: Vec<Vec<char>>)
    ensures
        views_of(ls@) == lines_of(text@),
{
    let mut ls: Vec<Vec<char>> = Vec::new();
    let mut i: usize = 0;
    proof {
        assert(views_of(ls@) + lines_from(text@, 0) =~= lines_of(text@));
    }
    while i < text.len()
        invariant
            i <= text.len(),
            views_of(ls@) + lines_from(text@, i as int) == lines_of(text@),
        decreases text.len() - i,
    {
        let start = i;
        while i < text.len() && text[i] != '\n'
            invariant
                start <= i <= text.len(),
                forall|k: int| start <= k < i ==> !newline_pred()(text@[k]),
            decreases text.len() - i,
        {
            i = i + 1;
        }
        proof {
            if i < text.len() {
                assert(newline_pred()(text@[i as int]));
            }
            lemma_scan_to_is(text@, start as int, newline_pred(), i as int);
        }
        let ghost prev = ls@;
        if i < text.len() {
            let end = if i > start && text[i - 1] == '\r' {
                i - 1
            } else {
                i
            };
            let line = copy_range(text, start, end);
            ls.push(line);
            proof {
                assert(line@ =~= strip_cr(text@.subrange(start as int, i as int)));
                assert(views_of(ls@) =~= views_of(prev).push(line@));
                assert(lines_from(text@, start as int) == seq![
                    strip_cr(text@.subrange(start as int, i as int)),
                ] + lines_from(text@, i + 1));
                assert(views_of(ls@) + lines_from(text@, i + 1) =~= views_of(prev) + lines_from(
                    text@,
                    start as int,
                ));
            }
            i = i + 1;
        } else {
            let line = copy_range(text, start, i);
            ls.push(line);
            proof {
                assert(views_of(ls@) =~= views_of(prev).push(line@));
                assert(lines_from(text@, start as int) == seq![
                    text@.subrange(start as int, text@.len() as int),
                ]);
                assert(views_of(ls@) + lines_from(text@, i as int) =~= views_of(prev)
                    + lines_from(text@, start as int));
            }
        }
    }
    proof {
        assert(views_of(ls@) =~= lines_of(text@));
    }
    ls
}

} // verus!
