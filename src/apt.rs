//! Turning the text that an `apt-cache` query prints into the package names it lists.
pub mod parser;

use crate::apt::parser::{
    chars_of, depends, depends_entry, first_token, opt_view, recommended, recommends_entry,
    search,
};
use vstd::prelude::*;

verus! {

/// The one error that a query reports.
#[derive(Debug)]
pub enum AptError {
    /// No package of the given name is in the index; the message names it.
    NotFound(String),
}

/// The parser that picks a name out of each line of a query's output.
#[derive(Clone, Copy, Debug, PartialEq, Eq)]
pub enum LineParser {
    /// `apt-cache search`: the first word of the line.
    Search,
    /// `apt-cache depends`: the name on a `Depends: ` line.
    Depends,
    /// `apt-cache depends`: the name on a `Recommends: ` line.
    Recommends,
}

/// What parser `p` yields on `line`.
pub open spec fn parse_spec(p: LineParser, line: Seq<char>) -> Option<Seq<char>> {
    match p {
        LineParser::Search => first_token(line),
        LineParser::Depends => depends_entry(line),
        LineParser::Recommends => recommends_entry(line),
    }
}

/// Applies the parser `p` to one line.
pub fn parse_line<'a>(p: LineParser, line: &'a str) -> (r: Option<&'a str>)
    ensures
        opt_view(r) == parse_spec(p, line@),
{
    match p {
        LineParser::Search => search(line),
        LineParser::Depends => depends(line),
        LineParser::Recommends => recommended(line),
    }
}

/// Number of characters before the first line feed of `s` (all of them if there is none).
pub open spec fn line_len(s: Seq<char>) -> nat
    decreases s.len(),
{
    if s.len() > 0 && s[0] != '\n' {
        1 + line_len(s.drop_first())
    } else {
        0
    }
}

/// `l` without one carriage return at its end.
pub open spec fn without_cr(l: Seq<char>) -> Seq<char> {
    if l.len() > 0 && l.last() == '\r' {
        l.drop_last()
    } else {
        l
    }
}

/// The lines of `s`, as `str::lines` gives them: split at each `\n`, a `\r` just before
/// the `\n` dropped, and no empty line after a final `\n`.
pub open spec fn lines_of(s: Seq<char>) -> Seq<Seq<char>>
    decreases s.len(),
{
    if s.len() == 0 {
        Seq::empty()
    } else {
        let k = line_len(s) as int;
        if k < s.len() {
            seq![without_cr(s.take(k))] + lines_of(s.skip(k + 1))
        } else {
            seq![s]
        }
    }
}

/// What `p` yields on `lines`, in order, the lines it rejects left out.
pub open spec fn parsed(lines: Seq<Seq<char>>, p: LineParser) -> Seq<Seq<char>>
    decreases lines.len(),
{
    if lines.len() == 0 {
        Seq::empty()
    } else {
        let rest = parsed(lines.drop_last(), p);
        match parse_spec(p, lines.last()) {
            Some(t) => rest.push(t),
            None => rest,
        }
    }
}

/// The names that `p` finds in the output `out` of a query.
pub open spec fn entries(out: Seq<char>, p: LineParser) -> Seq<Seq<char>> {
    parsed(lines_of(out), p)
}

/// The views of a sequence of strings.
pub open spec fn views(v: Seq<String>) -> Seq<Seq<char>> {
    v.map_values(|x: String| x@)
}

proof fn lemma_line_len(s: Seq<char>, k: int)
    requires
        0 <= k <= s.len(),
        forall|j: int| 0 <= j < k ==> #[trigger] s[j] != '\n',
        k == s.len() || s[k] == '\n',
    ensures
        line_len(s) == k,
    decreases k,
{
    if k > 0 {
        lemma_line_len(s.drop_first(), k - 1);
    }
}

/// Relies on `String::push`: appends one character.
#[verifier::external_body]
fn push_char(s: &mut String, c: char)
    ensures
        final(s)@ == old(s)@.push(c),
{
    s.push(c);
}

/// The string made of `cs[from..to]`.
fn string_of(cs: &Vec<char>, from: usize, to: usize) -> (r: String)
    requires
        from <= to <= cs.len(),
    ensures
        r@ == cs@.subrange(from as int, to as int),
{
    let mut r = String::new();
    let mut i: usize = from;
    while i < to
        invariant
            from <= i <= to <= cs.len(),
            r@ == cs@.subrange(from as int, i as int),
        decreases to - i,
    {
        push_char(&mut r, cs[i]);
        assert(r@ =~= cs@.subrange(from as int, i + 1));
        i = i + 1;
    }
    r
}

/// Applies `p` to each line of `output` and collects, in order, the names it yields;
/// `None` where it yields none.
pub fn parse_output(output: &str, p: LineParser) -> (r: Option<Vec<String>>)
    ensures
        match r {
            None => entries(output@, p).len() == 0,
            Some(v) => entries(output@, p).len() > 0 && views(v@) == entries(output@, p),
        },
{
    let cs = chars_of(output);
    let mut found: Vec<String> = Vec::new();
    let ghost mut done: Seq<Seq<char>> = Seq::empty();
    let mut i: usize = 0;
    assert(cs@.skip(0) =~= cs@);
    while i < cs.len()
        invariant
            i <= cs.len(),
            cs@ == output@,
            lines_of(cs@) == done + lines_of(cs@.skip(i as int)),
            views(found@) == parsed(done, p),
        decreases cs.len() - i,
    {
        let mut k: usize = i;
        while k < cs.len() && cs[k] != '\n'
            invariant
                i <= k <= cs.len(),
                forall|j: int| i <= j < k ==> #[trigger] cs@[j] != '\n',
            decreases cs.len() - k,
        {
            k = k + 1;
        }
        let ghost s = cs@.skip(i as int);
        proof {
            assert forall|j: int| 0 <= j < k - i implies #[trigger] s[j] != '\n' by {
                assert(s[j] == cs@[i + j]);
            }
            lemma_line_len(s, k - i);
        }
        let e: usize = if k < cs.len() && k > i && cs[k - 1] == '\r' {
            k - 1
        } else {
            k
        };
        let line = string_of(&cs, i, e);
        let ghost lines_rest = lines_of(cs@.skip(i as int));
        proof {
            if k < cs.len() {
                assert(s.take(k - i) =~= cs@.subrange(i as int, k as int));
                assert(line@ =~= without_cr(s.take(k - i)));
                assert(s.skip(k - i + 1) =~= cs@.skip(k + 1));
            } else {
                assert(line@ =~= s);
            }
        }
        let ghost old_found = found@;
        match parse_line(p, line.as_str()) {
            Some(t) => {
                found.push(t.to_owned());
            },
            None => {},
        }
        proof {
            let new_done = done.push(line@);
            assert(new_done.drop_last() =~= done);
            assert(views(found@) =~= parsed(new_done, p));
            if k < cs.len() {
                assert(lines_of(cs@) =~= new_done + lines_of(cs@.skip(k + 1)));
            } else {
                assert(cs@.skip(cs.len() as int) =~= Seq::<char>::empty());
                assert(lines_of(cs@) =~= new_done + lines_of(cs@.skip(cs.len() as int)));
            }
            done = new_done;
        }
        i = if k < cs.len() {
            k + 1
        } else {
            k
        };
    }
    assert(cs@.skip(i as int) =~= Seq::<char>::empty());
    assert(done =~= lines_of(cs@));
    if found.len() == 0 {
        None
    } else {
        Some(found)
    }
}

} // verus!
