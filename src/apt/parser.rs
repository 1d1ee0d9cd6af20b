//! Parsers that pick the package name, if any, out of one line of `apt-cache` output.
use vstd::prelude::*;
use vstd::string::StrSliceExecFns;

verus! {

/// The characters that `char::is_whitespace` accepts: Unicode's `White_Space` property.
pub open spec fn is_ws(c: char) -> bool {
    let u = c as u32;
    (0x9 <= u && u <= 0xd) || u == 0x20 || u == 0x85 || u == 0xa0 || u == 0x1680 || (0x2000 <= u
        && u <= 0x200a) || u == 0x2028 || u == 0x2029 || u == 0x202f || u == 0x205f || u == 0x3000
}

/// Length of the longest prefix of `s` whose characters are all whitespace (`w`) or all not (`!w`).
pub open spec fn run_len(s: Seq<char>, w: bool) -> nat
    decreases s.len(),
{
    if s.len() > 0 && is_ws(s[0]) == w {
        1 + run_len(s.drop_first(), w)
    } else {
        0
    }
}

/// Number of whitespace characters at the end of `s`.
pub open spec fn trailing_ws(s: Seq<char>) -> nat
    decreases s.len(),
{
    if s.len() > 0 && is_ws(s.last()) {
        1 + trailing_ws(s.drop_last())
    } else {
        0
    }
}

/// The first maximal run of non-whitespace characters of `s`, if there is one.
pub open spec fn first_token(s: Seq<char>) -> Option<Seq<char>> {
    let rest = s.skip(run_len(s, true) as int);
    if rest.len() == 0 {
        None
    } else {
        Some(rest.take(run_len(rest, false) as int))
    }
}

/// `s` without its leading and trailing whitespace.
pub open spec fn trimmed(s: Seq<char>) -> Seq<char> {
    let rest = s.skip(run_len(s, true) as int);
    rest.take(rest.len() - trailing_ws(rest))
}

/// What follows `label` in `s`, where `s` starts with `label`.
pub open spec fn after_label(s: Seq<char>, label: Seq<char>) -> Option<Seq<char>> {
    if label.is_prefix_of(s) {
        Some(s.skip(label.len() as int))
    } else {
        None
    }
}

/// The label of a line that names a dependency.
pub open spec fn depends_label() -> Seq<char> {
    seq!['D', 'e', 'p', 'e', 'n', 'd', 's', ':', ' ']
}

/// The label of a line that names a recommended package.
pub open spec fn recommends_label() -> Seq<char> {
    seq!['R', 'e', 'c', 'o', 'm', 'm', 'e', 'n', 'd', 's', ':', ' ']
}

/// The name on a line `Depends: <name>`, surrounding whitespace aside.
pub open spec fn depends_entry(s: Seq<char>) -> Option<Seq<char>> {
    after_label(trimmed(s), depends_label())
}

/// The name on a line `Recommends: <name>`, surrounding whitespace aside.
pub open spec fn recommends_entry(s: Seq<char>) -> Option<Seq<char>> {
    after_label(trimmed(s), recommends_label())
}

/// The view of an optional string slice.
pub open spec fn opt_view(r: Option<&str>) -> Option<Seq<char>> {
    match r {
        Some(t) => Some(t@),
        None => None,
    }
}

proof fn lemma_run_len(s: Seq<char>, w: bool, k: int)
    requires
        0 <= k <= s.len(),
        forall|j: int| 0 <= j < k ==> is_ws(#[trigger] s[j]) == w,
        k == s.len() || is_ws(s[k]) != w,
    ensures
        run_len(s, w) == k,
    decreases k,
{
    if k > 0 {
        lemma_run_len(s.drop_first(), w, k - 1);
    }
}

proof fn lemma_trailing_ws(s: Seq<char>, k: int)
    requires
        0 <= k <= s.len(),
        forall|j: int| s.len() - k <= j < s.len() ==> is_ws(#[trigger] s[j]),
        k == s.len() || !is_ws(s[s.len() - k - 1]),
    ensures
        trailing_ws(s) == k,
    decreases k,
{
    if k > 0 {
        lemma_trailing_ws(s.drop_last(), k - 1);
    }
}

proof fn lemma_run_len_facts(s: Seq<char>, w: bool)
    ensures
        run_len(s, w) <= s.len(),
        forall|j: int| 0 <= j < run_len(s, w) ==> is_ws(#[trigger] s[j]) == w,
        run_len(s, w) < s.len() ==> is_ws(s[run_len(s, w) as int]) != w,
    decreases s.len(),
{
    if s.len() > 0 && is_ws(s[0]) == w {
        lemma_run_len_facts(s.drop_first(), w);
        assert forall|j: int| 0 <= j < run_len(s, w) implies is_ws(#[trigger] s[j]) == w by {
            if j > 0 {
                assert(s[j] == s.drop_first()[j - 1]);
            }
        }
    }
}

proof fn lemma_trailing_ws_facts(s: Seq<char>)
    ensures
        trailing_ws(s) <= s.len(),
        forall|j: int| s.len() - trailing_ws(s) <= j < s.len() ==> is_ws(#[trigger] s[j]),
        trailing_ws(s) < s.len() ==> !is_ws(s[s.len() - trailing_ws(s) - 1]),
    decreases s.len(),
{
    if s.len() > 0 && is_ws(s.last()) {
        lemma_trailing_ws_facts(s.drop_last());
        assert forall|j: int| s.len() - trailing_ws(s) <= j < s.len() implies is_ws(
            #[trigger] s[j],
        ) by {
            if j < s.len() - 1 {
                assert(s[j] == s.drop_last()[j]);
            }
        }
    }
}

/// The search parser yields nothing exactly when the line is empty or all whitespace, and
/// otherwise the first maximal run of non-whitespace characters of the line.
pub proof fn search_law(line: Seq<char>)
    ensures
        first_token(line) is None <==> forall|i: int| 0 <= i < line.len() ==> is_ws(
            #[trigger] line[i],
        ),
        first_token(line) is Some ==> exists|a: int, b: int|
            0 <= a < b <= line.len() && first_token(line) == Some(line.subrange(a, b)) && (forall|
                i: int,
            | 0 <= i < a ==> is_ws(#[trigger] line[i])) && (forall|i: int|
                a <= i < b ==> !is_ws(#[trigger] line[i])) && (b == line.len() || is_ws(line[b])),
{
    let a = run_len(line, true) as int;
    let rest = line.skip(a);
    lemma_run_len_facts(line, true);
    lemma_run_len_facts(rest, false);
    if rest.len() == 0 {
        assert forall|i: int| 0 <= i < line.len() implies is_ws(#[trigger] line[i]) by {}
    } else {
        assert(!is_ws(line[a]));
        let b = a + run_len(rest, false);
        assert(rest[0] == line[a]);
        assert(run_len(rest, false) > 0);
        assert(first_token(line) == Some(line.subrange(a, b))) by {
            assert(rest.take(run_len(rest, false) as int) =~= line.subrange(a, b));
        }
        assert forall|i: int| a <= i < b implies !is_ws(#[trigger] line[i]) by {
            assert(line[i] == rest[i - a]);
        }
        if b < line.len() {
            assert(line[b] == rest[b - a]);
        }
    }
}

/// Trimming removes exactly the whitespace at both ends of a line: what is left is empty or
/// starts and ends with a non-whitespace character.
pub proof fn trim_law(line: Seq<char>)
    ensures
        exists|a: int, e: int|
            0 <= a <= e <= line.len() && trimmed(line) == line.subrange(a, e) && (forall|i: int|
                0 <= i < a ==> is_ws(#[trigger] line[i])) && (forall|i: int|
                e <= i < line.len() ==> is_ws(#[trigger] line[i])) && (a < e ==> !is_ws(line[a])
                && !is_ws(line[e - 1])) && (a == e ==> a == line.len()),
{
    let a = run_len(line, true) as int;
    let rest = line.skip(a);
    lemma_run_len_facts(line, true);
    lemma_trailing_ws_facts(rest);
    let e = line.len() - trailing_ws(rest);
    assert(trimmed(line) =~= line.subrange(a, e));
    assert forall|i: int| e <= i < line.len() implies is_ws(#[trigger] line[i]) by {
        assert(line[i] == rest[i - a]);
    }
    if a < e {
        assert(line[e - 1] == rest[e - 1 - a]);
        assert(rest[0] == line[a]);
    }
}

/// The depends parser yields `name` exactly when the trimmed line is `Depends: ` followed by
/// `name`, and nothing exactly when the trimmed line does not start with `Depends: `.
pub proof fn depends_law(line: Seq<char>, name: Seq<char>)
    ensures
        depends_entry(line) == Some(name) <==> trimmed(line) == depends_label() + name,
        depends_entry(line) is None <==> !depends_label().is_prefix_of(trimmed(line)),
{
    label_law(trimmed(line), depends_label(), name);
}

/// The recommends parser yields `name` exactly when the trimmed line is `Recommends: `
/// followed by `name`, and nothing exactly when the trimmed line does not start with
/// `Recommends: `.
pub proof fn recommends_law(line: Seq<char>, name: Seq<char>)
    ensures
        recommends_entry(line) == Some(name) <==> trimmed(line) == recommends_label() + name,
        recommends_entry(line) is None <==> !recommends_label().is_prefix_of(trimmed(line)),
{
    label_law(trimmed(line), recommends_label(), name);
}

proof fn label_law(t: Seq<char>, label: Seq<char>, name: Seq<char>)
    ensures
        after_label(t, label) == Some(name) <==> t == label + name,
{
    if t == label + name {
        assert(t.subrange(0, label.len() as int) =~= label);
        assert(t.skip(label.len() as int) =~= name);
    }
    if after_label(t, label) == Some(name) {
        assert(t =~= label + name);
    }
}

/// Whether `c` is whitespace, as `char::is_whitespace` decides it.
pub fn is_whitespace(c: char) -> (r: bool)
    ensures
        r == is_ws(c),
{
    let u = c as u32;
    (0x9 <= u && u <= 0xd) || u == 0x20 || u == 0x85 || u == 0xa0 || u == 0x1680 || (0x2000 <= u
        && u <= 0x200a) || u == 0x2028 || u == 0x2029 || u == 0x202f || u == 0x205f || u == 0x3000
}

/// The characters of `s`, in order.
pub fn chars_of(s: &str) -> (r: Vec<char>)
    ensures
        r@ == s@,
{
    let mut r: Vec<char> = Vec::new();
    for c in it: s.chars()
        invariant
            r@ == it.seq().take(it.index() as int),
    {
        r.push(c);
    }
    r
}

/// Index of the first character at or after `from` whose whitespace-ness differs from `w`.
fn scan(cs: &Vec<char>, from: usize, w: bool) -> (r: usize)
    requires
        from <= cs.len(),
    ensures
        from <= r <= cs.len(),
        r - from == run_len(cs@.skip(from as int), w),
{
    let mut i: usize = from;
    while i < cs.len() && is_whitespace(cs[i]) == w
        invariant
            from <= i <= cs.len(),
            forall|j: int| from <= j < i ==> is_ws(#[trigger] cs@[j]) == w,
        decreases cs.len() - i,
    {
        i = i + 1;
    }
    let ghost s = cs@.skip(from as int);
    proof {
        assert forall|j: int| 0 <= j < i - from implies is_ws(#[trigger] s[j]) == w by {
            assert(s[j] == cs@[from + j]);
        }
        lemma_run_len(s, w, i - from);
    }
    i
}

/// Index just past the last non-whitespace character of `cs[from..]`, or `from` if there is none.
fn scan_back(cs: &Vec<char>, from: usize) -> (r: usize)
    requires
        from <= cs.len(),
    ensures
        from <= r <= cs.len(),
        cs.len() - r == trailing_ws(cs@.skip(from as int)),
{
    let mut e: usize = cs.len();
    while e > from && is_whitespace(cs[e - 1])
        invariant
            from <= e <= cs.len(),
            forall|j: int| e <= j < cs.len() ==> is_ws(#[trigger] cs@[j]),
        decreases e,
    {
        e = e - 1;
    }
    let ghost s = cs@.skip(from as int);
    proof {
        assert forall|j: int| s.len() - (cs.len() - e) <= j < s.len() implies is_ws(
            #[trigger] s[j],
        ) by {
            assert(s[j] == cs@[from + j]);
        }
        lemma_trailing_ws(s, cs.len() - e);
    }
    e
}

/// Parses a line of `apt-cache search` output: the package name is its first word.
pub fn search(s: &str) -> (r: Option<&str>)
    ensures
        opt_view(r) == first_token(s@),
{
    let cs = chars_of(s);
    let a = scan(&cs, 0, true);
    assert(cs@.skip(0) =~= cs@);
    let ghost rest = cs@.skip(a as int);
    if a == cs.len() {
        assert(rest.len() == 0);
        None
    } else {
        let b = scan(&cs, a, false);
        let t = s.substring_char(a, b);
        assert(t@ =~= rest.take(run_len(rest, false) as int));
        Some(t)
    }
}

/// The text after `label` in the trimmed line `s`, where the trimmed line starts with it.
fn after_trimmed_label<'a>(s: &'a str, label: &Vec<char>) -> (r: Option<&'a str>)
    ensures
        opt_view(r) == after_label(trimmed(s@), label@),
{
    let cs = chars_of(s);
    let a = scan(&cs, 0, true);
    assert(cs@.skip(0) =~= cs@);
    let e = scan_back(&cs, a);
    let ghost t = cs@.subrange(a as int, e as int);
    proof {
        let rest = cs@.skip(a as int);
        assert(rest.take(rest.len() - trailing_ws(rest)) =~= t);
    }
    assert(trimmed(s@) == t);
    if e - a < label.len() {
        return None;
    }
    let mut j: usize = 0;
    while j < label.len()
        invariant
            j <= label.len() <= e - a,
            a <= e <= cs.len(),
            t == cs@.subrange(a as int, e as int),
            trimmed(s@) == t,
            forall|k: int| 0 <= k < j ==> label@[k] == #[trigger] t[k],
        decreases label.len() - j,
    {
        if cs[a + j] != label[j] {
            proof {
                let head = t.subrange(0, label.len() as int);
                assert(head[j as int] != label@[j as int]);
                assert(head != label@);
            }
            return None;
        }
        j = j + 1;
    }
    assert(t.subrange(0, label.len() as int) =~= label@);
    let r = s.substring_char(a + label.len(), e);
    assert(r@ =~= t.skip(label.len() as int));
    Some(r)
}

/// Parses a line of `apt-cache depends` output of the form `Depends: <name>`.
pub fn depends(s: &str) -> (r: Option<&str>)
    ensures
        opt_view(r) == depends_entry(s@),
{
    let label: Vec<char> = vec!['D', 'e', 'p', 'e', 'n', 'd', 's', ':', ' '];
    assert(label@ =~= depends_label());
    after_trimmed_label(s, &label)
}

/// Parses a line of `apt-cache depends` output of the form `Recommends: <name>`.
pub fn recommended(s: &str) -> (r: Option<&str>)
    ensures
        opt_view(r) == recommends_entry(s@),
{
    let label: Vec<char> = vec!['R', 'e', 'c', 'o', 'm', 'm', 'e', 'n', 'd', 's', ':', ' '];
    assert(label@ =~= recommends_label());
    after_trimmed_label(s, &label)
}

} // verus!
