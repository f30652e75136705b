//! What the sweep exchanges with a registry: the two listings it reads, the
//! paths it asks for, and how the digest of a manifest is read from a reply.

use crate::text::{same_text, texts};
use vstd::prelude::*;

verus! {

/// The repositories that a registry lists in its catalog.
#[derive(Debug, Clone)]
pub struct Catalog {
    repositories: Vec<String>,
}

impl View for Catalog {
    type V = Seq<Seq<char>>;

    closed spec fn view(&self) -> Seq<Seq<char>> {
        texts(self.repositories@)
    }
}

impl Catalog {
    /// A catalog of the given repositories, in their order.
    pub fn new(repositories: Vec<String>) -> (catalog: Catalog)
        ensures
            catalog@ == texts(repositories@),
    {
        Catalog { repositories }
    }

    /// The repositories of the catalog, in their order.
    pub fn repositories(&self) -> (repositories: &Vec<String>)
        ensures
            texts(repositories@) == self@,
    {
        &self.repositories
    }
}

/// The tags that a registry lists for one repository.
#[derive(Debug, Clone)]
pub struct ImageTagList {
    tags: Vec<String>,
}

impl View for ImageTagList {
    type V = Seq<Seq<char>>;

    closed spec fn view(&self) -> Seq<Seq<char>> {
        texts(self.tags@)
    }
}

impl ImageTagList {
    /// A listing of the given tags, in their order.
    pub fn new(tags: Vec<String>) -> (list: ImageTagList)
        ensures
            list@ == texts(tags@),
    {
        ImageTagList { tags }
    }

    /// The tags of the listing, in their order.
    pub fn tags(&self) -> (tags: &Vec<String>)
        ensures
            texts(tags@) == self@,
    {
        &self.tags
    }
}

/// The path under which a registry lists its repositories.
pub fn catalog_path() -> (path: String)
    ensures
        path@ == "/v2/_catalog"@,
{
    "/v2/_catalog".to_owned()
}

/// The path under which a registry lists the tags of a repository.
pub fn tag_list_path(repository: &str) -> (path: String)
    ensures
        path@ == "/v2/"@ + repository@ + "/tags/list"@,
{
    let mut path = "/v2/".to_owned();
    path.append(repository);
    path.append("/tags/list");
    path
}

/// The path of a manifest of a repository, named by a tag or by a digest.
pub fn manifest_path(repository: &str, reference: &str) -> (path: String)
    ensures
        path@ == "/v2/"@ + repository@ + "/manifests/"@ + reference@,
{
    let mut path = "/v2/".to_owned();
    path.append(repository);
    path.append("/manifests/");
    path.append(reference);
    path
}

/// Whether a reply's status says that the registry has no such manifest.
pub fn is_not_found(status: u16) -> (missing: bool)
    ensures
        missing == (status == 404),
{
    status == 404
}

/// One header of a reply: its name in lower case, and its value where the
/// value is text.
#[derive(Debug, Clone)]
pub struct HeaderField {
    pub name: String,
    pub value: Option<String>,
}

/// The name of the header in which a registry reports the digest of a
/// manifest.
pub open spec fn digest_header_name() -> Seq<char> {
    "docker-content-digest"@
}

/// The text of a header's value, where it has one.
pub open spec fn value_text(field: HeaderField) -> Option<Seq<char>> {
    match field.value {
        Some(value) => Some(value@),
        None => None,
    }
}

/// The digest that a reply's headers report: the value of the first header
/// with the digest header's name, where that value is text.
pub open spec fn reported_digest(headers: Seq<HeaderField>) -> Option<Seq<char>>
    decreases headers.len(),
{
    if headers.len() == 0 {
        None
    } else if headers[0].name@ == digest_header_name() {
        value_text(headers[0])
    } else {
        reported_digest(headers.drop_first())
    }
}

/// Reads the digest of a manifest from the headers of a reply.
pub fn digest_from_headers(headers: &Vec<HeaderField>) -> (digest: Option<String>)
    ensures
        match digest {
            Some(text) => reported_digest(headers@) == Some(text@),
            None => reported_digest(headers@) is None,
        },
{
    let mut i: usize = 0;
    proof {
        assert(headers@.skip(0) =~= headers@);
    }
    while i < headers.len()
        invariant
            i <= headers@.len(),
            reported_digest(headers@) == reported_digest(headers@.skip(i as int)),
        decreases headers@.len() - i,
    {
        proof {
            assert(headers@.skip(i as int).drop_first() =~= headers@.skip(i + 1));
        }
        if same_text(headers[i].name.as_str(), "docker-content-digest") {
            return match &headers[i].value {
                Some(value) => Some(value.clone()),
                None => None,
            };
        }
        i = i + 1;
    }
    None
}

} // verus!
