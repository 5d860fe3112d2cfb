//! The records of the service: links, unique by code, and the append-only
//! click log.

use vstd::prelude::*;
use crate::headers::opt_string;
use crate::text::same_text;

verus! {

/// A short code and the URL it stands for.
pub struct Link {
    pub code: String,
    pub target_url: String,
    /// Creation instant, in nanoseconds since the Unix epoch.
    pub created_at: i128,
    /// Expiry as the RFC 3339 text it was given in.
    pub expires_at: Option<String>,
    pub created_ip: Option<String>,
    pub created_user_agent: Option<String>,
}

/// One resolution of a link.
pub struct Click {
    pub code: String,
    /// Instant of the resolution, in nanoseconds since the Unix epoch.
    pub at: i128,
    pub ip: Option<String>,
    pub user_agent: Option<String>,
    pub referer: Option<String>,
    pub country: Option<String>,
    pub city: Option<String>,
}

/// The store refused an insert because the code is taken.
#[derive(Debug, PartialEq, Eq, Structural)]
pub enum InsertError {
    CodeTaken,
}

/// Whether some link has `code`.
pub open spec fn has_code(links: Seq<Link>, code: Seq<char>) -> bool {
    exists|i: int| 0 <= i < links.len() && #[trigger] links[i].code@ == code
}

/// No two links share a code.
pub open spec fn unique_codes(links: Seq<Link>) -> bool {
    forall|i: int, j: int| 0 <= i < j < links.len() ==> links[i].code@ != links[j].code@
}

/// The link with `code`, if any.
pub open spec fn link_with(links: Seq<Link>, code: Seq<char>) -> Option<Link>
    decreases links.len(),
{
    if links.len() == 0 {
        None
    } else if links[0].code@ == code {
        Some(links[0])
    } else {
        link_with(links.drop_first(), code)
    }
}

/// `link_with` finds the link at `i` when the links before it have other codes,
/// and nothing when no link has the code.
pub proof fn lemma_link_with(links: Seq<Link>, code: Seq<char>, i: int)
    requires
        0 <= i <= links.len(),
        forall|j: int| 0 <= j < i ==> links[j].code@ != code,
        i == links.len() || links[i].code@ == code,
    ensures
        i < links.len() ==> link_with(links, code) == Some(links[i]),
        i == links.len() ==> link_with(links, code) is None,
    decreases i,
{
    if i > 0 {
        lemma_link_with(links.drop_first(), code, i - 1);
    }
}

/// `link_with` agrees with `has_code`.
pub proof fn lemma_link_with_has_code(links: Seq<Link>, code: Seq<char>)
    ensures
        link_with(links, code) is Some <==> has_code(links, code),
        link_with(links, code) is Some ==> link_with(links, code)->0.code@ == code,
    decreases links.len(),
{
    if links.len() > 0 {
        lemma_link_with_has_code(links.drop_first(), code);
        if has_code(links, code) && links[0].code@ != code {
            let i = choose|i: int| 0 <= i < links.len() && #[trigger] links[i].code@ == code;
            assert(links.drop_first()[i - 1].code@ == code);
        }
        if has_code(links.drop_first(), code) {
            let i = choose|i: int|
                0 <= i < links.drop_first().len() && #[trigger] links.drop_first()[i].code@
                    == code;
            assert(links[i + 1].code@ == code);
        }
    }
}

/// Appending a link with a new code leaves every other lookup as it was.
pub proof fn lemma_link_with_push(links: Seq<Link>, l: Link, code: Seq<char>)
    requires
        !has_code(links, l.code@),
    ensures
        code == l.code@ ==> link_with(links.push(l), code) == Some(l),
        code != l.code@ ==> link_with(links.push(l), code) == link_with(links, code),
    decreases links.len(),
{
    lemma_link_with_has_code(links, l.code@);
    if links.len() > 0 {
        assert(links.push(l).drop_first() =~= links.drop_first().push(l));
        assert(links.push(l)[0] == links[0]);
        assert(links[0].code@ != l.code@);
        {
            assert forall|i: int| 0 <= i < links.drop_first().len() implies #[trigger] links.drop_first()[i].code@ != l.code@ by {
                assert(links.drop_first()[i] == links[i + 1]);
            }
            lemma_link_with_push(links.drop_first(), l, code);
        }
        if code != l.code@ && links[0].code@ != code {
            assert(link_with(links.push(l), code) == link_with(links.push(l).drop_first(), code));
            assert(link_with(links, code) == link_with(links.drop_first(), code));
        }
    } else {
        assert(links.push(l).drop_first() =~= Seq::<Link>::empty());
        assert(links.push(l)[0] == l);
    }
}

/// The links and the clicks.
pub struct Store {
    links: Vec<Link>,
    clicks: Vec<Click>,
}

impl Store {
    /// The links, in order of creation.
    pub closed spec fn spec_links(&self) -> Seq<Link> {
        self.links@
    }

    /// The clicks, in order of recording.
    pub closed spec fn spec_clicks(&self) -> Seq<Click> {
        self.clicks@
    }

    /// Codes are unique.
    pub open spec fn wf(&self) -> bool {
        unique_codes(self.spec_links())
    }

    /// An empty store.
    pub fn new() -> (r: Self)
        ensures
            r.wf(),
            r.spec_links().len() == 0,
            r.spec_clicks().len() == 0,
    {
        Store { links: Vec::new(), clicks: Vec::new() }
    }

    /// The links, in order of creation.
    pub fn links(&self) -> (r: &Vec<Link>)
        ensures
            r@ == self.spec_links(),
    {
        &self.links
    }

    /// The clicks, in order of recording.
    pub fn clicks(&self) -> (r: &Vec<Click>)
        ensures
            r@ == self.spec_clicks(),
    {
        &self.clicks
    }

    /// The position of the link with `code`.
    pub fn find_link(&self, code: &str) -> (r: Option<usize>)
        ensures
            r is None <==> link_with(self.spec_links(), code@) is None,
            r is Some ==> r->0 < self.spec_links().len() && link_with(self.spec_links(), code@)
                == Some(self.spec_links()[r->0 as int]),
    {
        let n = self.links.len();
        let mut i: usize = 0;
        while i < n
            invariant
                n == self.links@.len(),
                i <= n,
                forall|j: int| 0 <= j < i ==> self.links@[j].code@ != code@,
            decreases n - i,
        {
            if same_text(self.links[i].code.as_str(), code) {
                proof {
                    lemma_link_with(self.links@, code@, i as int);
                }
                return Some(i);
            }
            i = i + 1;
        }
        proof {
            lemma_link_with(self.links@, code@, i as int);
        }
        None
    }

    /// Inserts `link` unless its code is taken, which is refused.
    pub fn insert_link(&mut self, link: Link) -> (r: Result<(), InsertError>)
        requires
            old(self).wf(),
        ensures
            final(self).wf(),
            r is Ok <==> !has_code(old(self).spec_links(), link.code@),
            r is Ok ==> final(self).spec_links() == old(self).spec_links().push(link),
            r is Err ==> final(self).spec_links() == old(self).spec_links(),
            final(self).spec_clicks() == old(self).spec_clicks(),
    {
        let found = self.find_link(link.code.as_str());
        proof {
            lemma_link_with_has_code(self.links@, link.code@);
        }
        match found {
            Some(_) => Err(InsertError::CodeTaken),
            None => {
                self.links.push(link);
                Ok(())
            },
        }
    }

    /// Appends a click to the log.
    pub fn record_click(&mut self, click: Click)
        requires
            old(self).wf(),
        ensures
            final(self).wf(),
            final(self).spec_links() == old(self).spec_links(),
            final(self).spec_clicks() == old(self).spec_clicks().push(click),
    {
        self.clicks.push(click);
    }
}

/// A copy of an optional string.
pub fn copy_opt(o: &Option<String>) -> (r: Option<String>)
    ensures
        r == *o,
{
    match o {
        None => None,
        Some(s) => Some(s.clone()),
    }
}

/// An optional string from an optional text.
pub fn own_opt(o: Option<&str>) -> (r: Option<String>)
    ensures
        opt_string(r) == crate::clock::opt_view(o),
{
    match o {
        None => None,
        Some(s) => Some(s.to_owned()),
    }
}

} // verus!
