//! The resolution pass: pools the constants of all parsed files and
//! resolves every reference to the fully qualified name it denotes.

pub mod ast_resolver;

use crate::ast::constant::{clone_constant, clone_loc, Constant, ConstantView, LocView};
use crate::ast::ParsedFile;
use vstd::prelude::*;

verus! {

broadcast use crate::seqview::group_dvs;

/// A reference together with the fully qualified name it resolved to.
#[derive(Clone, Debug)]
pub struct ResolvedReference {
    pub name: String,
    pub loc: crate::ast::constant::Loc,
}

/// The mathematical value of a `ResolvedReference`.
pub ghost struct ResolvedReferenceView {
    pub name: Seq<char>,
    pub loc: LocView,
}

impl DeepView for ResolvedReference {
    type V = ResolvedReferenceView;

    open spec fn deep_view(&self) -> ResolvedReferenceView {
        ResolvedReferenceView { name: self.name@, loc: self.loc.deep_view() }
    }
}

/// An exact copy of a resolved reference.
pub fn clone_resolved_reference(r: &ResolvedReference) -> (c: ResolvedReference)
    ensures
        c.deep_view() == r.deep_view(),
{
    ResolvedReference { name: r.name.clone(), loc: clone_loc(&r.loc) }
}

/// All definitions of the parsed files, in file order.
pub open spec fn all_definitions(pfs: Seq<crate::ast::ParsedFileView>) -> Seq<ConstantView>
    decreases pfs.len(),
{
    if pfs.len() == 0 {
        Seq::empty()
    } else {
        all_definitions(pfs.drop_last()) + pfs.last().definitions
    }
}

/// All references of the parsed files, in file order.
pub open spec fn all_references(pfs: Seq<crate::ast::ParsedFileView>) -> Seq<ConstantView>
    decreases pfs.len(),
{
    if pfs.len() == 0 {
        Seq::empty()
    } else {
        all_references(pfs.drop_last()) + pfs.last().references
    }
}

/// Appends copies of all constants in `src` to `dst`.
fn extend_constants(dst: &mut Vec<Constant>, src: &Vec<Constant>)
    ensures
        final(dst).deep_view() == old(dst).deep_view() + src.deep_view(),
{
    let ghost pre = dst.deep_view();
    let mut k: usize = 0;
    while k < src.len()
        invariant
            k <= src.len(),
            pre == old(dst).deep_view(),
            dst.deep_view() == pre + src.deep_view().take(k as int),
        decreases src.len() - k,
    {
        dst.push(clone_constant(&src[k]));
        proof {
            assert(pre + src.deep_view().take(k + 1) =~= (pre + src.deep_view().take(
                k as int,
            )).push(src.deep_view()[k as int]));
        }
        k = k + 1;
    }
    proof {
        assert(pre + src.deep_view().take(src.deep_view().len() as int) =~= pre
            + src.deep_view());
    }
}

/// Pools the definitions and references of all parsed files and resolves
/// the references against the definitions.
pub fn resolve_references(parsed_files: Vec<ParsedFile>) -> (r: (
    Vec<Constant>,
    Vec<ResolvedReference>,
))
    ensures
        r.0.deep_view() == all_definitions(parsed_files.deep_view()),
        r.1.deep_view() == ast_resolver::resolve_view(
            all_definitions(parsed_files.deep_view()),
            all_references(parsed_files.deep_view()),
        ),
{
    let ghost pdv = parsed_files.deep_view();
    let mut definitions: Vec<Constant> = Vec::new();
    let mut references: Vec<Constant> = Vec::new();
    let mut i: usize = 0;
    while i < parsed_files.len()
        invariant
            pdv == parsed_files.deep_view(),
            i <= parsed_files.len(),
            definitions.deep_view() == all_definitions(pdv.take(i as int)),
            references.deep_view() == all_references(pdv.take(i as int)),
        decreases parsed_files.len() - i,
    {
        let pf = &parsed_files[i];
        proof {
            assert(pdv.take(i + 1).drop_last() =~= pdv.take(i as int));
            assert(pdv.take(i + 1).last() == pdv[i as int]);
        }
        extend_constants(&mut definitions, &pf.definitions);
        extend_constants(&mut references, &pf.references);
        i = i + 1;
    }
    proof {
        assert(pdv.take(pdv.len() as int) =~= pdv);
    }
    let resolved = ast_resolver::resolve(&definitions, &references);
    (definitions, resolved)
}

} // verus!
