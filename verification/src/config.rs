//! Configuration handling: the built-in list of ignored root-namespace
//! constants and its union with the caller's list.

use vstd::prelude::*;

verus! {

broadcast use crate::seqview::group_dvs;

/// The simple names whose definitions are always dropped: common
/// standard-library and framework root namespaces.
pub open spec fn built_in_ignored() -> Seq<Seq<char>> {
    seq![
        "String"@,
        "Devise"@,
        "Array"@,
        "RSpec"@,
        "T"@,
        "Date"@,
        "DateTime"@,
        "BigDecimal"@,
        "Rails"@,
    ]
}

/// The built-in ignore list.
pub fn built_in_ignored_constants() -> (r: Vec<String>)
    ensures
        r.deep_view() =~= built_in_ignored(),
{
    let mut r: Vec<String> = Vec::new();
    r.push("String".to_owned());
    r.push("Devise".to_owned());
    r.push("Array".to_owned());
    r.push("RSpec".to_owned());
    r.push("T".to_owned());
    r.push("Date".to_owned());
    r.push("DateTime".to_owned());
    r.push("BigDecimal".to_owned());
    r.push("Rails".to_owned());
    r
}

/// The caller's ignore list followed by the built-in one: the union the
/// analysis runs with.
pub fn ignored_constants(ignore_constants: &Vec<String>) -> (r: Vec<String>)
    ensures
        r.deep_view() =~= ignore_constants.deep_view() + built_in_ignored(),
{
    let ghost igv = ignore_constants.deep_view();
    let mut r: Vec<String> = Vec::new();
    let mut i: usize = 0;
    while i < ignore_constants.len()
        invariant
            igv == ignore_constants.deep_view(),
            i <= ignore_constants.len(),
            r.deep_view() == igv.take(i as int),
        decreases ignore_constants.len() - i,
    {
        r.push(ignore_constants[i].clone());
        i = i + 1;
    }
    proof {
        assert(igv.take(igv.len() as int) =~= igv);
    }
    let mut built_in = built_in_ignored_constants();
    r.append(&mut built_in);
    r
}

} // verus!
