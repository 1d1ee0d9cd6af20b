//! Packages of the `apt` index, and the names that `apt-cache` lists for them.
//!
//! The library never runs a process itself: each operation takes the text that the
//! corresponding `apt-cache` query printed and does the rest.
pub mod apt;

use crate::apt::{entries, parse_output, views, AptError, LineParser};
use vstd::prelude::*;
use vstd::string::StringExecFns;

verus! {

/// A package known to be in the index when it was made.
#[derive(Debug, PartialEq)]
pub struct Package {
    pub name: String,
}

/// The message of the error for a missing package called `name`.
pub open spec fn not_found_message(name: Seq<char>) -> Seq<char> {
    "The package \""@ + name + "\" was not found"@
}

/// Whether `e` is the error for a missing package called `name`.
pub open spec fn is_not_found(e: AptError, name: Seq<char>) -> bool {
    match e {
        AptError::NotFound(m) => m@ == not_found_message(name),
    }
}

/// Whether `apt-cache search` printed `out` lists a package called exactly `name`.
pub open spec fn is_listed(name: Seq<char>, out: Seq<char>) -> bool {
    entries(out, LineParser::Search).contains(name)
}

/// Whether the `i`-th name is listed in the `i`-th search output.
pub open spec fn listed_at(names: Seq<Seq<char>>, outs: Seq<Seq<char>>, i: int) -> bool {
    i < outs.len() && is_listed(names[i], outs[i])
}

/// Whether every name is listed in the search output of the same position.
pub open spec fn all_listed(names: Seq<Seq<char>>, outs: Seq<Seq<char>>) -> bool {
    forall|i: int| 0 <= i < names.len() ==> #[trigger] listed_at(names, outs, i)
}

/// Whether `i` is the first position whose name is not listed.
pub open spec fn first_unlisted(names: Seq<Seq<char>>, outs: Seq<Seq<char>>, i: int) -> bool {
    0 <= i < names.len() && !listed_at(names, outs, i) && forall|j: int|
        0 <= j < i ==> #[trigger] listed_at(names, outs, j)
}

/// The names of a sequence of packages.
pub open spec fn names_of(v: Seq<Package>) -> Seq<Seq<char>> {
    v.map_values(|p: Package| p.name@)
}

fn not_found(name: &str) -> (e: AptError)
    ensures
        is_not_found(e, name@),
{
    let mut m = String::new();
    m.append("The package \"");
    m.append(name);
    m.append("\" was not found");
    AptError::NotFound(m)
}

/// Whether `v` holds a string equal to `name`.
fn holds(v: &Vec<String>, name: &String) -> (r: bool)
    ensures
        r == views(v@).contains(name@),
{
    let mut i: usize = 0;
    while i < v.len()
        invariant
            i <= v.len(),
            forall|j: int| 0 <= j < i ==> v@[j]@ != name@,
        decreases v.len() - i,
    {
        if v[i] == *name {
            assert(views(v@)[i as int] == name@);
            return true;
        }
        i = i + 1;
    }
    assert forall|j: int| 0 <= j < views(v@).len() implies views(v@)[j] != name@ by {
        assert(views(v@)[j] == v@[j]@);
    }
    false
}

/// The packages called `names`, where each is listed in the search output of the same
/// position in `search_outputs`; the not-found error of the first that is not otherwise.
fn resolve(names: &Vec<String>, search_outputs: &Vec<String>) -> (r: Result<
    Vec<Package>,
    AptError,
>)
    ensures
        r is Ok <==> all_listed(views(names@), views(search_outputs@)),
        r matches Ok(v) ==> names_of(v@) == views(names@),
        r matches Err(e) ==> exists|i: int|
            first_unlisted(views(names@), views(search_outputs@), i) && is_not_found(
                e,
                views(names@)[i],
            ),
{
    let ghost ns = views(names@);
    let ghost outs = views(search_outputs@);
    let mut v: Vec<Package> = Vec::new();
    let mut i: usize = 0;
    while i < names.len()
        invariant
            i <= names.len(),
            ns == views(names@),
            outs == views(search_outputs@),
            names_of(v@) == ns.take(i as int),
            forall|j: int| 0 <= j < i ==> #[trigger] listed_at(ns, outs, j),
        decreases names.len() - i,
    {
        assert(ns[i as int] == names@[i as int]@);
        if i >= search_outputs.len() {
            assert(first_unlisted(ns, outs, i as int));
            return Err(not_found(names[i].as_str()));
        }
        assert(outs[i as int] == search_outputs@[i as int]@);
        match Package::new(names[i].as_str(), search_outputs[i].as_str()) {
            Ok(p) => {
                let ghost old_v = v@;
                v.push(p);
                assert(names_of(v@) =~= names_of(old_v).push(ns[i as int]));
                assert(ns.take(i + 1) =~= ns.take(i as int).push(ns[i as int]));
            },
            Err(e) => {
                assert(first_unlisted(ns, outs, i as int));
                return Err(e);
            },
        }
        i = i + 1;
    }
    assert(ns.take(i as int) =~= ns);
    Ok(v)
}

impl Package {
    /// The package called `name`, where `search_output`, the output of `apt-cache search
    /// <name>`, lists a package of exactly that name; the not-found error otherwise.
    pub fn new(name: &str, search_output: &str) -> (r: Result<Package, AptError>)
        ensures
            r is Ok <==> is_listed(name@, search_output@),
            r matches Ok(p) ==> p.name@ == name@,
            r matches Err(e) ==> is_not_found(e, name@),
    {
        let name_string = name.to_owned();
        match parse_output(search_output, LineParser::Search) {
            Some(found) => {
                if holds(&found, &name_string) {
                    Ok(Package { name: name_string })
                } else {
                    Err(not_found(name))
                }
            },
            None => {
                assert(!entries(search_output@, LineParser::Search).contains(name@));
                Err(not_found(name))
            },
        }
    }

    /// The packages that this one depends on, from `output`, the output of `apt-cache depends
    /// <name>`. The `i`-th of `search_outputs` is the output of `apt-cache search` for the
    /// `i`-th name found there; each name must be listed in it. `None` where `output` names
    /// no dependency.
    pub fn depends(&self, output: &str, search_outputs: &Vec<String>) -> (r: Result<
        Option<Vec<Package>>,
        AptError,
    >)
        ensures
            r is Ok <==> all_listed(
                entries(output@, LineParser::Depends),
                views(search_outputs@),
            ),
            r matches Ok(None) <==> entries(output@, LineParser::Depends).len() == 0,
            r matches Ok(Some(v)) ==> names_of(v@) == entries(output@, LineParser::Depends),
            r matches Err(e) ==> exists|i: int|
                first_unlisted(entries(output@, LineParser::Depends), views(search_outputs@), i)
                    && is_not_found(e, entries(output@, LineParser::Depends)[i]),
    {
        related(output, LineParser::Depends, search_outputs)
    }

    /// The packages that this one recommends, from `output`, the output of `apt-cache
    /// depends <name>`, with `search_outputs` as for `depends`.
    pub fn recommended(&self, output: &str, search_outputs: &Vec<String>) -> (r: Result<
        Option<Vec<Package>>,
        AptError,
    >)
        ensures
            r is Ok <==> all_listed(
                entries(output@, LineParser::Recommends),
                views(search_outputs@),
            ),
            r matches Ok(None) <==> entries(output@, LineParser::Recommends).len() == 0,
            r matches Ok(Some(v)) ==> names_of(v@) == entries(output@, LineParser::Recommends),
            r matches Err(e) ==> exists|i: int|
                first_unlisted(
                    entries(output@, LineParser::Recommends),
                    views(search_outputs@),
                    i,
                ) && is_not_found(e, entries(output@, LineParser::Recommends)[i]),
    {
        related(output, LineParser::Recommends, search_outputs)
    }
}

/// The packages that `p` finds named in `output`, each checked against its search output.
fn related(output: &str, p: LineParser, search_outputs: &Vec<String>) -> (r: Result<
    Option<Vec<Package>>,
    AptError,
>)
    ensures
        r is Ok <==> all_listed(entries(output@, p), views(search_outputs@)),
        r matches Ok(None) <==> entries(output@, p).len() == 0,
        r matches Ok(Some(v)) ==> names_of(v@) == entries(output@, p),
        r matches Err(e) ==> exists|i: int|
            first_unlisted(entries(output@, p), views(search_outputs@), i) && is_not_found(
                e,
                entries(output@, p)[i],
            ),
{
    match parse_output(output, p) {
        None => Ok(None),
        Some(names) => match resolve(&names, search_outputs) {
            Ok(v) => Ok(Some(v)),
            Err(e) => Err(e),
        },
    }
}

} // verus!
