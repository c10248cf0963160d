//! Resource paths: how a binding is told from the others of its capture.

use crate::catalog::ResourceSpec;
use crate::text::{option_text, texts};
use vstd::prelude::*;

verus! {

/// The path of a stream: its namespace, where it has one, and its name.
pub open spec fn resource_path(namespace: Option<Seq<char>>, stream: Seq<char>) -> Seq<Seq<char>> {
    match namespace {
        Some(ns) => seq![ns, stream],
        None => seq![stream],
    }
}

/// Returns the resource path of a resource spec: its namespace, where it has one, and the
/// name of its stream.
pub fn resource_spec_to_resource_path(res: &ResourceSpec) -> (path: Vec<String>)
    ensures
        texts(path@) == resource_path(option_text(res.namespace), res.stream@),
{
    let mut path: Vec<String> = Vec::new();
    if let Some(ns) = &res.namespace {
        path.push(ns.clone());
    }
    path.push(res.stream.clone());
    assert(texts(path@) =~= resource_path(option_text(res.namespace), res.stream@));
    path
}

/// Two streams with the same path have the same namespace and the same name.
pub proof fn law_path_tells_streams_apart(
    namespace: Option<Seq<char>>,
    stream: Seq<char>,
    other_namespace: Option<Seq<char>>,
    other_stream: Seq<char>,
)
    requires
        resource_path(namespace, stream) == resource_path(other_namespace, other_stream),
    ensures
        namespace == other_namespace,
        stream == other_stream,
{
    let path = resource_path(namespace, stream);
    let other = resource_path(other_namespace, other_stream);
    assert(path.last() == stream);
    assert(other.last() == other_stream);
    assert(path.len() == other.len());
    assert(path[0] == other[0]);
}

/// A resource path ends in the name of the stream. Before it stands the namespace, where there
/// is one, and nothing else.
pub proof fn law_path_is_namespace_and_stream(res: ResourceSpec, path: Vec<String>)
    requires
        texts(path@) == resource_path(option_text(res.namespace), res.stream@),
    ensures
        path@.len() == if res.namespace is Some {
            2int
        } else {
            1int
        },
        path@.last()@ == res.stream@,
        res.namespace matches Some(namespace) ==> path@[0]@ == namespace@,
{
    assert(texts(path@).len() == path@.len());
    assert(texts(path@)[path@.len() - 1] == path@.last()@);
    assert(texts(path@)[0] == path@[0]@);
}

} // verus!
