//! The workspace consistency check: a workspace whose members manage
//! independent versions is incompatible with single-target version bumping,
//! so such members are collected and surfaced before anything mutates.

use vstd::prelude::*;

use crate::manifest::{ManifestFacts, VersionField};

verus! {

/// A workspace member that declares its own literal version instead of
/// inheriting the shared workspace version.
#[derive(Debug, Clone)]
pub struct IndependentVersionMember {
    pub name: String,
    pub path: String,
    pub version: String,
}

/// One declared workspace member: its path entry and, when its manifest
/// exists, what that manifest holds. A missing manifest (an unresolved glob
/// pattern, say) is skipped, not an error.
#[derive(Debug, Clone)]
pub struct MemberManifest {
    pub path: String,
    pub facts: Option<ManifestFacts>,
}

/// Whether a member declares an independent version: its manifest exists and
/// carries a literal `[package]` version. Inheritance is not divergence, and
/// neither is a missing version field.
pub open spec fn spec_member_independent(m: MemberManifest) -> bool {
    m.facts matches Some(f) && f.package_version matches VersionField::Literal(_)
}

/// The record an independent member produces: its package name (or its path,
/// when the manifest names none), its path, and its declared version.
pub open spec fn spec_member_record_matches(m: MemberManifest, rec: IndependentVersionMember) -> bool {
    &&& m.facts matches Some(f) && f.package_version matches VersionField::Literal(v) && rec.version@
        == v@ && (match f.package_name {
        Some(n) => rec.name@ == n@,
        None => rec.name@ == m.path@,
    })
    &&& rec.path@ == m.path@
}

/// The members of the list that declare independent versions, in order.
pub open spec fn spec_independent_members(entries: Seq<MemberManifest>) -> Seq<MemberManifest>
    decreases entries.len(),
{
    if entries.len() == 0 {
        Seq::<MemberManifest>::empty()
    } else {
        let rest = spec_independent_members(entries.drop_last());
        if spec_member_independent(entries.last()) {
            rest.push(entries.last())
        } else {
            rest
        }
    }
}

/// Examines one member. Returns its record when it declares an independent
/// version, and nothing when its manifest is missing, inherits the shared
/// version, or has no version field.
pub fn member_independent_version(m: &MemberManifest) -> (r: Option<IndependentVersionMember>)
    ensures
        r is Some <==> spec_member_independent(*m),
        r matches Some(rec) ==> spec_member_record_matches(*m, rec),
{
    match &m.facts {
        None => None,
        Some(f) => match &f.package_version {
            VersionField::Literal(v) => {
                let name = match &f.package_name {
                    Some(n) => n.clone(),
                    None => m.path.clone(),
                };
                Some(
                    IndependentVersionMember {
                        name,
                        path: m.path.clone(),
                        version: v.clone(),
                    },
                )
            },
            _ => None,
        },
    }
}

/// Collects every declared member that manages its own version. An empty
/// result means the workspace is consistent (or is no workspace at all: the
/// caller passes no members then).
pub fn check_workspace_independent_versions(entries: &Vec<MemberManifest>) -> (r: Vec<
    IndependentVersionMember,
>)
    ensures
        r@.len() == spec_independent_members(entries@).len(),
        forall|i: int|
            0 <= i < r@.len() ==> spec_member_record_matches(
                #[trigger] spec_independent_members(entries@)[i],
                r@[i],
            ),
{
    let mut out: Vec<IndependentVersionMember> = Vec::new();
    let mut i: usize = 0;
    proof {
        assert(entries@.take(0) =~= Seq::<MemberManifest>::empty());
    }
    while i < entries.len()
        invariant
            i <= entries@.len(),
            out@.len() == spec_independent_members(entries@.take(i as int)).len(),
            forall|k: int|
                0 <= k < out@.len() ==> spec_member_record_matches(
                    #[trigger] spec_independent_members(entries@.take(i as int))[k],
                    out@[k],
                ),
        decreases entries@.len() - i,
    {
        let ghost pre = entries@.take(i as int);
        match member_independent_version(&entries[i]) {
            Some(rec) => {
                out.push(rec);
            },
            None => {
            },
        }
        i = i + 1;
        proof {
            let cur = entries@.take(i as int);
            assert(cur.drop_last() =~= pre);
            assert(cur.last() == entries@[i - 1]);
        }
    }
    proof {
        assert(entries@.take(i as int) =~= entries@);
    }
    out
}

} // verus!
