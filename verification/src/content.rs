//! Articles and groups: what the store keeps of a file.

use vstd::prelude::*;
use vstd::string::*;
use crate::error::Error;
use crate::path::{file_name, file_name_of, file_stem, file_stem_of, has_file_name};
use crate::persist::{group_dir, group_dir_of, group_id, group_of};
use crate::text::{
    back_spaces_exec, chars_of, find_exec, find_from, matches_at, matches_at_exec, skip_spaces,
    skip_spaces_exec, text_between, trim, trim_char, trim_char_exec, trim_start,
};

verus! {

/// What stands at the head of an article.
#[derive(Debug, Clone, PartialEq, Eq)]
pub struct FrontMatter {
    pub title: String,
    pub summary: String,
    /// When the article was written, in seconds since the epoch.
    pub datetime: i64,
    pub tags: Vec<String>,
}

/// An article as the store keeps it.
#[derive(Debug, Clone, PartialEq, Eq)]
pub struct Article {
    pub group: String,
    pub slug: String,
    pub frontmatter: FrontMatter,
    pub rendered_content: String,
}

/// The name of an article: its group and its slug.
#[derive(Debug)]
pub struct ArticleRef<'a> {
    pub slug: &'a str,
    pub group: &'a str,
}

/// The state of a builder that has no text yet.
pub struct NoContent;

/// The state of a builder that has its text.
pub struct Content(String);

impl View for Content {
    type V = Seq<char>;

    closed spec fn view(&self) -> Seq<char> {
        self.0@
    }
}

/// An article in the making: first named by its path, then given its text.
pub struct ArticleBuilder<T> {
    group: String,
    slug: String,
    content: T,
}

/// What turns the text of an article into what is shown.
pub trait Renderer {
    /// The rendering of `content`, or why there is none.
    fn render(&self, content: &str) -> Result<String, Error>;
}

/// The line that opens and closes the front matter.
pub open spec fn delimiter() -> Seq<char> {
    "---"@
}

/// Why a text has no front matter.
pub enum FrontMatterFault {
    /// The text does not open with the delimiter.
    Missing,
    /// The delimiter opens the text and never comes again.
    Unterminated,
}

/// The front matter and the body of `content`: the text opens, behind any
/// white space, with the delimiter; the front matter runs up to the next
/// delimiter, trimmed; the body is what follows, without leading white space.
pub open spec fn front_matter_of(content: Seq<char>) -> Result<
    (Seq<char>, Seq<char>),
    FrontMatterFault,
> {
    let start = skip_spaces(content, 0);
    if !matches_at(content, delimiter(), start) {
        Err(FrontMatterFault::Missing)
    } else {
        match find_from(content, delimiter(), start + 3) {
            None => Err(FrontMatterFault::Unterminated),
            Some(end) => Ok(
                (trim(content.subrange(start + 3, end)), trim_start(content.skip(end + 3))),
            ),
        }
    }
}

/// What is said of a text without front matter.
pub open spec fn fault_message(fault: FrontMatterFault) -> Seq<char> {
    match fault {
        FrontMatterFault::Missing => "Missing required YAML front matter"@,
        FrontMatterFault::Unterminated =>
            "Front matter does not terminate with expected delimiter ---"@,
    }
}

/// `text` without the white space at either end.
pub fn trim_exec(text: &str) -> (part: String)
    ensures
        part@ == trim(text@),
{
    let v = chars_of(text);
    let from = skip_spaces_exec(&v, 0);
    let to = back_spaces_exec(&v, from, v.len());
    proof {
        let rest = text@.skip(from as int);
        assert(rest =~= text@.subrange(from as int, text@.len() as int));
        assert(rest.take(to - from) =~= text@.subrange(from as int, to as int));
    }
    text_between(text, from, to)
}

/// `text` without its leading white space.
pub fn trim_start_exec(text: &str) -> (part: String)
    ensures
        part@ == trim_start(text@),
{
    let v = chars_of(text);
    let from = skip_spaces_exec(&v, 0);
    proof {
        assert(text@.skip(from as int) =~= text@.subrange(from as int, text@.len() as int));
    }
    text_between(text, from, v.len())
}

impl<T> ArticleBuilder<T> {
    /// The group of the article.
    pub closed spec fn spec_group(&self) -> Seq<char> {
        self.group@
    }

    /// The slug of the article.
    pub closed spec fn spec_slug(&self) -> Seq<char> {
        self.slug@
    }

    /// What the builder holds besides the article's name.
    pub closed spec fn spec_content(&self) -> T {
        self.content
    }

    /// The group of the article.
    pub fn group(&self) -> (group: &str)
        ensures
            group@ == self.spec_group(),
    {
        self.group.as_str()
    }

    /// The slug of the article.
    pub fn slug(&self) -> (slug: &str)
        ensures
            slug@ == self.spec_slug(),
    {
        self.slug.as_str()
    }
}

impl ArticleBuilder<NoContent> {
    /// A builder for the article at `path`: its group is the directory,
    /// without slashes at either end, and its slug the file name without
    /// its extension.
    pub fn new(path: &str) -> (builder: ArticleBuilder<NoContent>)
        ensures
            builder.spec_group() == group_of(path@),
            builder.spec_slug() == file_stem(path@),
    {
        ArticleBuilder { group: group_id(path), slug: file_stem_of(path), content: NoContent }
    }

    /// The name of the article.
    pub fn to_ref<'a>(&'a self) -> (name: ArticleRef<'a>)
        ensures
            name.slug@ == self.spec_slug(),
            name.group@ == self.spec_group(),
    {
        ArticleRef { slug: self.slug.as_str(), group: self.group.as_str() }
    }

    /// The builder with the text of the article.
    pub fn content(self, md_content: &str) -> (builder: ArticleBuilder<Content>)
        ensures
            builder.spec_group() == self.spec_group(),
            builder.spec_slug() == self.spec_slug(),
            builder.spec_content()@ == md_content@,
    {
        ArticleBuilder {
            group: self.group,
            slug: self.slug,
            content: Content(md_content.to_owned()),
        }
    }
}

impl ArticleBuilder<Content> {
    /// The front matter and the body of `content`, or what is wrong with it.
    pub fn extract_front_matter_and_body(content: &str) -> (parts: Result<(String, String), Error>)
        ensures
            match parts {
                Ok((head, body)) => front_matter_of(content@) == Ok::<
                    (Seq<char>, Seq<char>),
                    FrontMatterFault,
                >((head@, body@)),
                Err(error) => match front_matter_of(content@) {
                    Err(fault) => error matches Error::Custom(message) && message@
                        == fault_message(fault),
                    Ok(_) => false,
                },
            },
    {
        let v = chars_of(content);
        let delim = chars_of("---");
        proof {
            reveal_strlit("---");
        }
        let start = skip_spaces_exec(&v, 0);
        if !matches_at_exec(&v, &delim, start) {
            return Err(Error::Custom("Missing required YAML front matter"));
        }
        match find_exec(&v, &delim, start + 3) {
            None => Err(
                Error::Custom("Front matter does not terminate with expected delimiter ---"),
            ),
            Some(end) => {
                proof {
                    lemma_find_from_bounds(content@, delimiter(), start + 3);
                    assert(delimiter().len() == 3);
                    assert(content@.skip(end + 3) =~= content@.subrange(
                        end + 3,
                        content@.len() as int,
                    ));
                }
                let head = text_between(content, start + 3, end);
                let rest = text_between(content, end + 3, v.len());
                Ok((trim_exec(head.as_str()), trim_start_exec(rest.as_str())))
            },
        }
    }

    /// The front matter and the body of the article's text.
    pub fn parse_content(&self) -> (parts: Result<(String, String), Error>)
        ensures
            match parts {
                Ok((head, body)) => front_matter_of(self.spec_content()@) == Ok::<
                    (Seq<char>, Seq<char>),
                    FrontMatterFault,
                >((head@, body@)),
                Err(error) => match front_matter_of(self.spec_content()@) {
                    Err(fault) => error matches Error::Custom(message) && message@
                        == fault_message(fault),
                    Ok(_) => false,
                },
            },
    {
        Self::extract_front_matter_and_body(self.content.0.as_str())
    }

    /// The article, made of its name, its front matter with the summary as
    /// rendered, and its text as rendered.
    pub fn assemble(
        self,
        frontmatter: FrontMatter,
        rendered_content: String,
        rendered_summary: String,
    ) -> (article: Article)
        ensures
            article.group@ == self.spec_group(),
            article.slug@ == self.spec_slug(),
            article.rendered_content == rendered_content,
            article.frontmatter.summary == rendered_summary,
            article.frontmatter.title == frontmatter.title,
            article.frontmatter.datetime == frontmatter.datetime,
            article.frontmatter.tags == frontmatter.tags,
    {
        Article {
            group: self.group,
            slug: self.slug,
            frontmatter: FrontMatter {
                title: frontmatter.title,
                summary: rendered_summary,
                datetime: frontmatter.datetime,
                tags: frontmatter.tags,
            },
            rendered_content,
        }
    }

    /// The article with `body` and the summary of `frontmatter` rendered by
    /// `renderer`, the body first; the first failure of the renderer ends it.
    pub fn build_with_renderer<R: Renderer>(
        self,
        frontmatter: FrontMatter,
        body: &str,
        renderer: &R,
    ) -> (built: Result<Article, Error>)
        ensures
            match built {
                Ok(article) => {
                    &&& article.group@ == self.spec_group()
                    &&& article.slug@ == self.spec_slug()
                    &&& article.frontmatter.title == frontmatter.title
                    &&& article.frontmatter.datetime == frontmatter.datetime
                    &&& article.frontmatter.tags == frontmatter.tags
                },
                Err(_) => true,
            },
    {
        let rendered_content = match renderer.render(body) {
            Ok(text) => text,
            Err(error) => {
                return Err(error);
            },
        };
        let rendered_summary = match renderer.render(frontmatter.summary.as_str()) {
            Ok(text) => text,
            Err(error) => {
                return Err(error);
            },
        };
        Ok(self.assemble(frontmatter, rendered_content, rendered_summary))
    }
}

/// A match lies inside the text, at or after where the search began.
pub proof fn lemma_find_from_bounds(hay: Seq<char>, pat: Seq<char>, i: int)
    ensures
        match find_from(hay, pat, i) {
            Some(at) => i <= at && at + pat.len() <= hay.len() && matches_at(hay, pat, at),
            None => true,
        },
    decreases hay.len() + 1 - i,
{
    if !(i < 0 || i + pat.len() > hay.len()) && !matches_at(hay, pat, i) {
        lemma_find_from_bounds(hay, pat, i + 1);
    }
}

/// What kind of group a group is.
#[derive(Debug, Clone, Copy, PartialEq, Eq, Structural)]
pub enum GroupKind {
    /// An ordinary group.
    Normal,
}

impl Default for GroupKind {
    fn default() -> (kind: GroupKind)
        ensures
            kind == GroupKind::Normal,
    {
        GroupKind::Normal
    }
}

/// A group as the store keeps it.
#[derive(Debug, Clone, PartialEq, Eq)]
pub struct Group {
    /// The directory of the group, without slashes at either end.
    pub id: String,
    pub name: String,
    pub public: bool,
    pub kind: Option<GroupKind>,
}

impl Group {
    /// The group whose metadata file lies at `path` and says `name`,
    /// `public` and `kind`: its id is its directory without slashes at
    /// either end, a group without a name is named after the last component
    /// of its directory, and one without a kind is ordinary.
    pub fn new(path: &str, name: String, public: bool, kind: Option<GroupKind>) -> (group: Group)
        requires
            name@.len() > 0 || has_file_name(group_dir(path@)),
        ensures
            group.id@ == trim_char(group_dir(path@), '/'),
            group.name@ == (if name@.len() > 0 {
                name@
            } else {
                file_name(group_dir(path@))
            }),
            group.public == public,
            group.kind == Some(
                match kind {
                    Some(k) => k,
                    None => GroupKind::Normal,
                },
            ),
    {
        let dir = group_dir_of(path);
        let shown = if name.as_str().is_empty() {
            file_name_of(dir.as_str())
        } else {
            name
        };
        let kind = match kind {
            Some(k) => k,
            None => GroupKind::default(),
        };
        Group { id: trim_char_exec(dir.as_str(), '/'), name: shown, public, kind: Some(kind) }
    }

    /// The group whose metadata file lay at `path`, with nothing known of
    /// it but where it was.
    pub fn empty(path: &str) -> (group: Group)
        ensures
            group.id@ == trim_char(group_dir(path@), '/'),
            group.name@.len() == 0,
            !group.public,
            group.kind is None,
    {
        let dir = group_dir_of(path);
        Group { id: trim_char_exec(dir.as_str(), '/'), name: String::new(), public: false, kind: None }
    }
}

} // verus!
