//! What a group says of itself.

use vstd::prelude::*;
use vstd::string::*;

verus! {

/// The category that a group belongs to.
#[derive(Debug, Clone, PartialEq, Eq)]
pub struct GroupCategory {
    id: String,
    name: String,
}

/// Who a group belongs to; for show only.
#[derive(Debug, Clone, PartialEq, Eq)]
pub struct GroupAuthor {
    pub name: String,
}

/// What a group says of itself: whether readers may see it, its category,
/// and its author.
#[derive(Debug, Clone, PartialEq, Eq)]
pub struct GroupMeta {
    pub public: bool,
    pub category: Option<GroupCategory>,
    pub author: Option<GroupAuthor>,
}

impl GroupCategory {
    /// The id of the category.
    pub closed spec fn spec_id(&self) -> Seq<char> {
        self.id@
    }

    /// The name of the category, as it is shown.
    pub closed spec fn spec_name(&self) -> Seq<char> {
        self.name@
    }

    /// The category `id`, shown as `name`.
    pub fn new(id: &str, name: &str) -> (category: GroupCategory)
        ensures
            category.spec_id() == id@,
            category.spec_name() == name@,
    {
        GroupCategory { id: id.to_owned(), name: name.to_owned() }
    }

    /// The id of the category.
    pub fn id(&self) -> (id: &str)
        ensures
            id@ == self.spec_id(),
    {
        self.id.as_str()
    }

    /// The name of the category, as it is shown.
    pub fn name(&self) -> (name: &str)
        ensures
            name@ == self.spec_name(),
    {
        self.name.as_str()
    }
}

impl Default for GroupMeta {
    /// A group that says nothing of itself is not public.
    fn default() -> (meta: GroupMeta)
        ensures
            !meta.public,
            meta.category is None,
            meta.author is None,
    {
        GroupMeta { public: false, category: None, author: None }
    }
}

} // verus!
