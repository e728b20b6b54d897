//! Who may change a collection: the authority the collection names for itself, else
//! the one its nearest ancestor names, else the authority of the record.

use crate::errors::MetadataError;
use crate::identity::Identity;
use crate::state::{target_view, Metadata, MetadataCollection, MetadataView};
use vstd::prelude::*;

verus! {

/// The first authority named along `chain`, which runs from a collection up to the
/// root; the authority of the record where the chain names none.
pub open spec fn resolve_authority(
    chain: Seq<Option<Identity>>,
    root_authority: Option<Identity>,
) -> Option<Identity>
    decreases chain.len(),
{
    if chain.len() == 0 {
        root_authority
    } else if chain[0] is Some {
        chain[0]
    } else {
        resolve_authority(chain.skip(1), root_authority)
    }
}

/// The authorities that a collection and its ancestors name for themselves, the
/// collection first, then the ancestors from the nearest to the root.
pub open spec fn authority_chain(
    node: MetadataCollection,
    ancestors: Seq<&MetadataCollection>,
) -> Seq<Option<Identity>> {
    seq![node.update_authority] + ancestors.map_values(
        |a: &MetadataCollection| a.update_authority,
    )
}

/// A collection that names no authority has the authority in force at its parent; one
/// that names an authority has that one.
pub proof fn lemma_resolve_step(
    own: Option<Identity>,
    above: Seq<Option<Identity>>,
    root_authority: Option<Identity>,
)
    ensures
        resolve_authority(seq![own] + above, root_authority) == if own is Some {
            own
        } else {
            resolve_authority(above, root_authority)
        },
{
    let chain = seq![own] + above;
    assert(chain[0] == own);
    assert(chain.skip(1) =~= above);
}

/// The authority in force is defined whenever the record has one, and is always one of
/// the authorities named along the chain or the record's.
pub proof fn lemma_resolve_defined(chain: Seq<Option<Identity>>, root_authority: Option<Identity>)
    ensures
        root_authority is Some ==> resolve_authority(chain, root_authority) is Some,
        resolve_authority(chain, root_authority) == root_authority || chain.contains(
            resolve_authority(chain, root_authority),
        ),
        (forall|i: int| 0 <= i < chain.len() ==> chain[i] is None) ==> resolve_authority(
            chain,
            root_authority,
        ) == root_authority,
    decreases chain.len(),
{
    if chain.len() > 0 {
        if chain[0] is Some {
            assert(chain.contains(chain[0]));
        } else {
            let rest = chain.skip(1);
            lemma_resolve_defined(rest, root_authority);
            let r = resolve_authority(rest, root_authority);
            if rest.contains(r) {
                let i = choose|i: int| 0 <= i < rest.len() && rest[i] == r;
                assert(chain[i + 1] == r);
            }
            assert forall|i: int| 0 <= i < rest.len() implies rest[i] == chain[i + 1] by {}
        }
    }
}

/// The authority in force at `node`, whose ancestors are given from the nearest to the
/// root, in a record whose own authority is `root_authority`.
pub fn effective_authority(
    node: &MetadataCollection,
    ancestors: &Vec<&MetadataCollection>,
    root_authority: Option<Identity>,
) -> (authority: Option<Identity>)
    ensures
        authority == resolve_authority(authority_chain(*node, ancestors@), root_authority),
        node.update_authority is Some ==> authority == node.update_authority,
        root_authority is Some ==> authority is Some,
{
    let ghost chain = authority_chain(*node, ancestors@);
    proof {
        lemma_resolve_defined(chain, root_authority);
    }
    if node.update_authority.is_some() {
        return node.update_authority;
    }
    let mut i: usize = 0;
    while i < ancestors.len()
        invariant
            i <= ancestors.len(),
            chain == authority_chain(*node, ancestors@),
            chain.len() == ancestors.len() + 1,
            resolve_authority(chain, root_authority) == resolve_authority(
                chain.skip(i + 1),
                root_authority,
            ),
        decreases ancestors.len() - i,
    {
        let named = ancestors[i].update_authority;
        let ghost rest = chain.skip(i + 1);
        assert(rest[0] == named);
        if named.is_some() {
            return named;
        }
        assert(rest.skip(1) =~= chain.skip(i + 2));
        i += 1;
    }
    assert(chain.skip(i + 1).len() == 0);
    root_authority
}

/// The authority in force at the root collection of `record`: the one the root names,
/// else the record's.
pub open spec fn root_authority(record: MetadataView) -> Option<Identity> {
    resolve_authority(seq![record.collection.update_authority], record.update_authority)
}

/// The authority in force at the child at position `index` under the root of `record`:
/// the one the child names, else the one the root names, else the record's.
pub open spec fn child_authority(record: MetadataView, index: int) -> Option<Identity> {
    resolve_authority(
        seq![
            record.collection.collections[index].update_authority,
            record.collection.update_authority,
        ],
        record.update_authority,
    )
}

/// The authority in force at the collection at `target`.
pub open spec fn authority_at(record: MetadataView, target: Option<int>) -> Option<Identity> {
    match target {
        None => root_authority(record),
        Some(at) => child_authority(record, at),
    }
}

/// A child that names no authority is under the authority in force at the root; a
/// child that names one is under that one, whatever the root and the record say.
pub proof fn lemma_child_authority(record: MetadataView, index: int)
    ensures
        child_authority(record, index) == if record.collection.collections[index].update_authority is Some {
            record.collection.collections[index].update_authority
        } else {
            root_authority(record)
        },
        root_authority(record) == if record.collection.update_authority is Some {
            record.collection.update_authority
        } else {
            record.update_authority
        },
{
    let own = record.collection.collections[index].update_authority;
    let root = record.collection.update_authority;
    lemma_resolve_step(own, seq![root], record.update_authority);
    assert(seq![own] + seq![root] =~= seq![own, root]);
    lemma_resolve_step(root, Seq::empty(), record.update_authority);
    assert(seq![root] + Seq::<Option<Identity>>::empty() =~= seq![root]);
}

/// The authority in force at the root collection of `record`.
pub fn authority_at_root(record: &Metadata) -> (authority: Option<Identity>)
    ensures
        authority == root_authority(record@),
{
    let ancestors: Vec<&MetadataCollection> = Vec::new();
    proof {
        assert(authority_chain(record.collection, ancestors@) =~= seq![
            record@.collection.update_authority,
        ]);
    }
    effective_authority(&record.collection, &ancestors, record.update_authority)
}

/// The authority in force at the child at position `index` under the root of `record`.
pub fn authority_at_child(record: &Metadata, index: usize) -> (authority: Option<Identity>)
    requires
        index < record.collection.collections.len(),
    ensures
        authority == child_authority(record@, index as int),
{
    let mut ancestors: Vec<&MetadataCollection> = Vec::new();
    ancestors.push(&record.collection);
    let child = &record.collection.collections[index];
    proof {
        record.collection.lemma_view_collections();
        assert(child@.update_authority == child.update_authority);
        assert(authority_chain(*child, ancestors@) =~= seq![
            record@.collection.collections[index as int].update_authority,
            record@.collection.update_authority,
        ]);
    }
    effective_authority(child, &ancestors, record.update_authority)
}

/// The authority in force at the collection at `target`.
pub fn authority_at_target(record: &Metadata, target: Option<usize>) -> (authority: Option<Identity>)
    requires
        record@.has_target(target_view(target)),
    ensures
        authority == authority_at(record@, target_view(target)),
{
    proof {
        record.collection.lemma_view_collections();
    }
    match target {
        None => authority_at_root(record),
        Some(at) => authority_at_child(record, at),
    }
}

/// Admits `signer` exactly when it is the authority in force.
pub fn authorize(authority: Option<Identity>, signer: &Identity) -> (r: Result<(), MetadataError>)
    ensures
        r is Ok <==> authority == Some(*signer),
        r is Err ==> r == Err::<(), MetadataError>(MetadataError::Unauthorized),
{
    match authority {
        Some(a) => {
            if a.same_as(signer) {
                Ok(())
            } else {
                Err(MetadataError::Unauthorized)
            }
        },
        None => Err(MetadataError::Unauthorized),
    }
}

} // verus!
