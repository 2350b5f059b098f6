//! What a reader asks the store for.

use vstd::prelude::*;
use vstd::string::*;
use crate::content::{lemma_find_from_bounds, trim_exec};
use crate::text::{chars_of, find_exec, find_from, text_between, trim};

verus! {

/// Which articles to list: how many to a page, which page, of which group,
/// and with which tags (separated by commas).
#[derive(Debug, Clone, PartialEq, Eq)]
pub struct QueryParams {
    pub limit: i32,
    pub page: i32,
    pub group: Option<String>,
    pub tags: String,
}

/// The character that parts one tag from the next.
pub open spec fn comma() -> Seq<char> {
    ","@
}

/// The tags that `text` names from position `i` on: the parts between
/// commas, trimmed, without the empty ones.
pub open spec fn tags_from(text: Seq<char>, i: int) -> Seq<Seq<char>>
    decreases text.len() + 1 - i,
{
    if i < 0 || i > text.len() {
        Seq::empty()
    } else {
        match find_from(text, comma(), i) {
            Some(cut) => if cut < i || cut >= text.len() {
                Seq::empty()
            } else if trim(text.subrange(i, cut)).len() > 0 {
                seq![trim(text.subrange(i, cut))] + tags_from(text, cut + 1)
            } else {
                tags_from(text, cut + 1)
            },
            None => if trim(text.subrange(i, text.len() as int)).len() > 0 {
                seq![trim(text.subrange(i, text.len() as int))]
            } else {
                Seq::empty()
            },
        }
    }
}

/// How many articles stand before page `page` where each page has `limit`:
/// the pages count from one, and a page below one is the first.
pub open spec fn offset_of(page: i32, limit: i32) -> int {
    (if page < 1 {
        0
    } else {
        page - 1
    }) * limit
}

impl Default for QueryParams {
    /// The first page, thirteen to a page, of every group and every tag.
    fn default() -> (params: QueryParams)
        ensures
            params.limit == 13,
            params.page == 1,
            params.group is None,
            params.tags@.len() == 0,
    {
        QueryParams { limit: 13, page: 1, group: None, tags: String::new() }
    }
}

impl QueryParams {
    /// The tags asked for.
    pub fn tag_list(&self) -> (tags: Vec<String>)
        ensures
            tags.deep_view() == tags_from(self.tags@, 0),
    {
        let text = self.tags.as_str();
        let v = chars_of(text);
        let sep = chars_of(",");
        proof {
            reveal_strlit(",");
        }
        let mut tags: Vec<String> = Vec::new();
        let mut i: usize = 0;
        assert(tags.deep_view() + tags_from(text@, 0) =~= tags_from(text@, 0));
        loop
            invariant_except_break
                i <= v.len(),
                tags.deep_view() + tags_from(text@, i as int) == tags_from(text@, 0),
            invariant
                v@ == text@,
                sep@ == comma(),
                comma().len() == 1,
                text@ == self.tags@,
            ensures
                tags.deep_view() == tags_from(text@, 0),
            decreases v.len() - i,
        {
            let ghost before = tags.deep_view();
            match find_exec(&v, &sep, i) {
                Some(cut) => {
                    proof {
                        lemma_find_from_bounds(text@, comma(), i as int);
                    }
                    let part = trim_exec(text_between(text, i, cut).as_str());
                    if part.as_str().unicode_len() > 0 {
                        tags.push(part);
                        assert(tags.deep_view() =~= before + seq![part@]);
                    }
                    assert(tags.deep_view() + tags_from(text@, cut + 1) =~= tags_from(text@, 0));
                    i = cut + 1;
                },
                None => {
                    let part = trim_exec(text_between(text, i, v.len()).as_str());
                    if part.as_str().unicode_len() > 0 {
                        tags.push(part);
                        assert(tags.deep_view() =~= before + seq![part@]);
                    }
                    assert(tags.deep_view() =~= tags_from(text@, 0));
                    break;
                },
            }
        }
        tags
    }

    /// How many articles stand before the page asked for.
    pub fn offset(&self) -> (skip: i64)
        ensures
            skip == offset_of(self.page, self.limit),
    {
        let page: i64 = if self.page < 1 {
            0
        } else {
            (self.page - 1) as i64
        };
        let limit: i64 = self.limit as i64;
        assert(-0x8000_0000 * 0x8000_0000 <= page * limit <= 0x8000_0000 * 0x8000_0000)
            by (nonlinear_arith)
            requires
                0 <= page < 0x8000_0000,
                -0x8000_0000 <= limit < 0x8000_0000,
        {}
        page * limit
    }
}

/// What the store is asked about articles and their groups.
pub struct ArticleModel;

/// The categories among the first `n` rows: the rows that have both an id
/// and a name, in their order.
pub open spec fn full_rows(rows: Seq<(Option<Seq<char>>, Option<Seq<char>>)>, n: int) -> Seq<
    (Seq<char>, Seq<char>),
>
    decreases n,
{
    if n <= 0 {
        Seq::empty()
    } else {
        match rows[n - 1] {
            (Some(id), Some(name)) => full_rows(rows, n - 1).push((id, name)),
            _ => full_rows(rows, n - 1),
        }
    }
}

impl ArticleModel {
    /// How many articles stand before page `page` where each page has
    /// `limit`.
    pub fn offset(limit: i32, page: i32) -> (skip: i64)
        ensures
            skip == offset_of(page, limit),
    {
        let params = QueryParams { limit, page, group: None, tags: String::new() };
        params.offset()
    }

    /// The categories that `rows` name, each by id and name: a row that
    /// lacks either is left out.
    pub fn categories(rows: Vec<(Option<String>, Option<String>)>) -> (pairs: Vec<
        (String, String),
    >)
        ensures
            pairs.deep_view() == full_rows(rows.deep_view(), rows.len() as int),
    {
        let ghost views = rows.deep_view();
        let ghost all = rows@;
        let n = rows.len();
        let mut pairs: Vec<(String, String)> = Vec::new();
        let mut at: usize = 0;
        assert(pairs.deep_view() =~= full_rows(views, 0));
        for row in it: rows
            invariant
                it.seq() == all,
                all.len() == n,
                views.len() == n,
                at == it.index(),
                forall|j: int| 0 <= j < n ==> views[j] == (#[trigger] all[j]).deep_view(),
                pairs.deep_view() == full_rows(views, at as int),
        {
            let ghost before = pairs.deep_view();
            assert(views[at as int] == row.deep_view());
            match row {
                (Some(id), Some(name)) => {
                    pairs.push((id, name));
                    assert(pairs.deep_view() =~= before.push((id@, name@)));
                },
                _ => {},
            }
            at += 1;
        }
        pairs
    }
}

} // verus!
