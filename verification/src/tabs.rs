//! Browser tabs as the DevTools HTTP endpoint lists them, and picking one by
//! index or by a pattern contained in its URL or title.
use vstd::prelude::*;
use vstd::string::StringExecFns;
use crate::text::{
    contains_seq, decimal, lemma_parse_decimal, parse_usize, parse_usize_spec, push_decimal,
    push_str, str_contains, str_eq,
};

verus! {

/// One target listed by `/json/list`.
#[derive(Debug)]
pub struct Tab {
    pub id: String,
    pub title: String,
    pub url: String,
    pub tab_type: String,
    pub web_socket_debugger_url: String,
}

impl Tab {
    /// A copy of this tab.
    pub fn duplicate(&self) -> (t: Tab)
        ensures
            t == *self,
    {
        Tab {
            id: self.id.clone(),
            title: self.title.clone(),
            url: self.url.clone(),
            tab_type: self.tab_type.clone(),
            web_socket_debugger_url: self.web_socket_debugger_url.clone(),
        }
    }
}

/// The targets that are pages, in order.
pub open spec fn page_tabs(tabs: Seq<Tab>) -> Seq<Tab>
    decreases tabs.len(),
{
    if tabs.len() == 0 {
        tabs
    } else {
        let prev = page_tabs(tabs.drop_last());
        if tabs.last().tab_type@ == "page"@ {
            prev.push(tabs.last())
        } else {
            prev
        }
    }
}

/// The page filter keeps exactly the targets whose type is "page", in the
/// order listed: every kept target is a page, and no page is dropped.
pub proof fn lemma_page_tabs_exact(tabs: Seq<Tab>)
    ensures
        page_tabs(tabs) == tabs.filter(|t: Tab| t.tab_type@ == "page"@),
        forall|i: int|
            0 <= i < page_tabs(tabs).len() ==> (#[trigger] page_tabs(tabs)[i]).tab_type@ == "page"@,
        forall|t: Tab| tabs.contains(t) && t.tab_type@ == "page"@ ==> page_tabs(tabs).contains(t),
    decreases tabs.len(),
{
    let pred = |t: Tab| t.tab_type@ == "page"@;
    reveal(Seq::filter);
    if tabs.len() > 0 {
        lemma_page_tabs_exact(tabs.drop_last());
    }
    assert(page_tabs(tabs) == tabs.filter(pred));
    assert forall|i: int| 0 <= i < page_tabs(tabs).len() implies (#[trigger] page_tabs(
        tabs,
    )[i]).tab_type@ == "page"@ by {
        tabs.lemma_filter_pred(pred, i);
    }
    assert forall|t: Tab| tabs.contains(t) && t.tab_type@ == "page"@ implies page_tabs(
        tabs,
    ).contains(t) by {
        let j = choose|j: int| 0 <= j < tabs.len() && tabs[j] == t;
        tabs.lemma_filter_contains(pred, j);
    }
}

/// The tabs of type "page", in the order listed.
pub fn filter_pages(tabs: &[Tab]) -> (pages: Vec<Tab>)
    ensures
        pages@ == page_tabs(tabs@),
{
    let n = tabs.len();
    let mut pages: Vec<Tab> = Vec::new();
    let mut i: usize = 0;
    while i < n
        invariant
            n == tabs@.len(),
            i <= n,
            pages@ == page_tabs(tabs@.take(i as int)),
        decreases n - i,
    {
        assert(tabs@.take(i + 1).drop_last() =~= tabs@.take(i as int));
        assert(tabs@.take(i + 1).last() == tabs@[i as int]);
        if str_eq(tabs[i].tab_type.as_str(), "page") {
            pages.push(tabs[i].duplicate());
        }
        i = i + 1;
    }
    assert(tabs@.take(n as int) =~= tabs@);
    pages
}

/// A tab matches a pattern contained in its URL or its title.
pub open spec fn tab_matches(t: Tab, pat: Seq<char>) -> bool {
    contains_seq(t.url@, pat) || contains_seq(t.title@, pat)
}

/// The tabs matching `pat`, in order.
pub open spec fn matching_tabs(pages: Seq<Tab>, pat: Seq<char>) -> Seq<Tab>
    decreases pages.len(),
{
    if pages.len() == 0 {
        pages
    } else {
        let prev = matching_tabs(pages.drop_last(), pat);
        if tab_matches(pages.last(), pat) {
            prev.push(pages.last())
        } else {
            prev
        }
    }
}

/// Pattern matching keeps exactly the pages whose URL or title contains the
/// pattern, in their order.
pub proof fn lemma_matching_tabs_exact(pages: Seq<Tab>, pat: Seq<char>)
    ensures
        matching_tabs(pages, pat) == pages.filter(
            |t: Tab| contains_seq(t.url@, pat) || contains_seq(t.title@, pat),
        ),
    decreases pages.len(),
{
    reveal(Seq::filter);
    if pages.len() > 0 {
        lemma_matching_tabs_exact(pages.drop_last(), pat);
    }
}

/// The text "[i] title — url" naming a tab in a listing.
pub open spec fn tab_line_spec(i: nat, t: Tab) -> Seq<char> {
    "["@ + decimal(i) + "] "@ + t.title@ + " \u{2014} "@ + t.url@
}

/// The indented lines naming each of `ts`, numbered from 0, joined by newlines.
pub open spec fn tab_lines(ts: Seq<Tab>) -> Seq<char>
    decreases ts.len(),
{
    if ts.len() == 0 {
        Seq::empty()
    } else if ts.len() == 1 {
        "  "@ + tab_line_spec(0, ts[0])
    } else {
        tab_lines(ts.drop_last()) + "\n  "@ + tab_line_spec((ts.len() - 1) as nat, ts.last())
    }
}

/// Why no tab could be picked.
#[derive(Debug)]
pub enum TabSelectError {
    /// The selector is an index past the last tab.
    NoTabAtIndex(usize),
    /// No tab's URL or title contains the pattern.
    NoMatch(String),
    /// Several tabs match the pattern; they are listed.
    Ambiguous(String, Vec<Tab>),
}

/// The text shown to the user for a tab error.
pub open spec fn tab_error_text(e: TabSelectError) -> Seq<char> {
    match e {
        TabSelectError::NoTabAtIndex(i) => "No tab at index "@ + decimal(i as nat),
        TabSelectError::NoMatch(p) => "No tab matching pattern '"@ + p@ + "'"@,
        TabSelectError::Ambiguous(p, ts) => "Pattern '"@ + p@ + "' matched "@ + decimal(ts@.len())
            + " tabs. Be more specific:\n"@ + tab_lines(ts@),
    }
}

/// Appends "[i] title — url" for tab `t` at position `i`.
fn push_tab_line(out: &mut String, i: usize, t: &Tab)
    ensures
        final(out)@ == old(out)@ + tab_line_spec(i as nat, *t),
{
    push_str(out, "[");
    push_decimal(out, i as u64);
    push_str(out, "] ");
    push_str(out, t.title.as_str());
    push_str(out, " \u{2014} ");
    push_str(out, t.url.as_str());
    assert(final(out)@ =~= old(out)@ + tab_line_spec(i as nat, *t));
}

/// The line naming tab `t` at position `i` in a tab listing.
pub fn tab_line(i: usize, t: &Tab) -> (s: String)
    ensures
        s@ == tab_line_spec(i as nat, *t),
{
    let mut s = String::new();
    push_tab_line(&mut s, i, t);
    assert(s@ =~= tab_line_spec(i as nat, *t));
    s
}

impl TabSelectError {
    /// The text shown to the user for this error.
    pub fn message(&self) -> (m: String)
        ensures
            m@ == tab_error_text(*self),
    {
        match self {
            TabSelectError::NoTabAtIndex(i) => {
                let mut m = String::from_str("No tab at index ");
                push_decimal(&mut m, *i as u64);
                m
            },
            TabSelectError::NoMatch(p) => {
                let mut m = String::from_str("No tab matching pattern '");
                push_str(&mut m, p.as_str());
                push_str(&mut m, "'");
                m
            },
            TabSelectError::Ambiguous(p, ts) => {
                let mut m = String::from_str("Pattern '");
                push_str(&mut m, p.as_str());
                push_str(&mut m, "' matched ");
                push_decimal(&mut m, ts.len() as u64);
                push_str(&mut m, " tabs. Be more specific:\n");
                let ghost head = m@;
                let n = ts.len();
                let mut i: usize = 0;
                while i < n
                    invariant
                        n == ts@.len(),
                        i <= n,
                        m@ == head + tab_lines(ts@.take(i as int)),
                    decreases n - i,
                {
                    let ghost before = m@;
                    if i == 0 {
                        push_str(&mut m, "  ");
                    } else {
                        push_str(&mut m, "\n  ");
                    }
                    push_tab_line(&mut m, i, &ts[i]);
                    proof {
                        let t = ts@.take(i + 1);
                        assert(t.drop_last() =~= ts@.take(i as int));
                        assert(t.last() == ts@[i as int]);
                        if i == 0 {
                            assert(ts@.take(0) =~= Seq::<Tab>::empty());
                            assert(t =~= seq![ts@[0]]);
                        }
                        assert(m@ =~= head + tab_lines(t));
                    }
                    i = i + 1;
                }
                assert(ts@.take(n as int) =~= ts@);
                m
            },
        }
    }
}

/// Picks a tab: a selector that parses as an index picks the page at that
/// index; any other selector must be contained in the URL or title of
/// exactly one page.
pub fn resolve_tab<'a>(pages: &'a [Tab], selector: &str) -> (r: Result<&'a Tab, TabSelectError>)
    ensures
        match parse_usize_spec(selector@) {
            Some(i) => match r {
                Ok(t) => i < pages@.len() && *t == pages@[i as int],
                Err(e) => i >= pages@.len() && e == TabSelectError::NoTabAtIndex(i as usize),
            },
            None => {
                let m = matching_tabs(pages@, selector@);
                match r {
                    Ok(t) => m.len() == 1 && *t == m[0],
                    Err(TabSelectError::NoMatch(p)) => m.len() == 0 && p@ == selector@,
                    Err(TabSelectError::Ambiguous(p, ts)) => m.len() > 1 && p@ == selector@ && ts@
                        == m,
                    Err(TabSelectError::NoTabAtIndex(_)) => false,
                }
            },
        },
{
    if let Some(index) = parse_usize(selector) {
        if index < pages.len() {
            return Ok(&pages[index]);
        }
        return Err(TabSelectError::NoTabAtIndex(index));
    }
    let n = pages.len();
    let mut matches: Vec<Tab> = Vec::new();
    let mut first: Option<usize> = None;
    let mut i: usize = 0;
    while i < n
        invariant
            n == pages@.len(),
            i <= n,
            matches@ == matching_tabs(pages@.take(i as int), selector@),
            match first {
                Some(j) => j < n && matches@.len() >= 1 && matches@[0] == pages@[j as int],
                None => matches@.len() == 0,
            },
        decreases n - i,
    {
        assert(pages@.take(i + 1).drop_last() =~= pages@.take(i as int));
        assert(pages@.take(i + 1).last() == pages@[i as int]);
        if str_contains(pages[i].url.as_str(), selector) || str_contains(
            pages[i].title.as_str(),
            selector,
        ) {
            if first.is_none() {
                first = Some(i);
            }
            matches.push(pages[i].duplicate());
        }
        i = i + 1;
    }
    assert(pages@.take(n as int) =~= pages@);
    if matches.len() == 0 {
        return Err(TabSelectError::NoMatch(String::from_str(selector)));
    }
    if matches.len() == 1 {
        match first {
            Some(j) => {
                return Ok(&pages[j]);
            },
            None => {
                return Err(TabSelectError::NoMatch(String::from_str(selector)));
            },
        }
    }
    Err(TabSelectError::Ambiguous(String::from_str(selector), matches))
}

/// Every tab picked by a pattern has the pattern in its URL or title, and
/// the matching tabs are pages of the list, in their order.
pub proof fn lemma_matching_tabs_match(pages: Seq<Tab>, pat: Seq<char>)
    ensures
        matching_tabs(pages, pat).len() <= pages.len(),
        forall|i: int|
            0 <= i < matching_tabs(pages, pat).len() ==> tab_matches(
                #[trigger] matching_tabs(pages, pat)[i],
                pat,
            ) && pages.contains(matching_tabs(pages, pat)[i]),
    decreases pages.len(),
{
    if pages.len() > 0 {
        lemma_matching_tabs_match(pages.drop_last(), pat);
        let prev = matching_tabs(pages.drop_last(), pat);
        assert forall|i: int| 0 <= i < prev.len() implies pages.contains(#[trigger] prev[i]) by {
            let j = choose|j: int| 0 <= j < pages.drop_last().len() && pages.drop_last()[j] == prev[i];
            assert(pages[j] == prev[i]);
        }
        assert(pages[pages.len() - 1] == pages.last());
    }
}

/// Listing and selecting agree: the index that a tab listing shows in front
/// of a page, given back as the selector, picks that same page.
pub proof fn lemma_listed_index_selects(pages: Seq<Tab>, i: usize)
    requires
        i < pages.len(),
    ensures
        parse_usize_spec(decimal(i as nat)) == Some(i as nat),
        tab_line_spec(i as nat, pages[i as int]) == "["@ + decimal(i as nat) + "] "@ + pages[i as int].title@
            + " \u{2014} "@ + pages[i as int].url@,
{
    lemma_parse_decimal(i);
}

/// The address of the DevTools endpoint, "host:port".
pub fn cdp_address(host: &str, port: u16) -> (s: String)
    ensures
        s@ == host@ + ":"@ + decimal(port as nat),
{
    let mut s = String::from_str(host);
    push_str(&mut s, ":");
    push_decimal(&mut s, port as u64);
    s
}

/// The base URL of the DevTools HTTP endpoint, "http://host:port".
pub fn base_url(host: &str, port: u16) -> (s: String)
    ensures
        s@ == "http://"@ + host@ + ":"@ + decimal(port as nat),
{
    let mut s = String::from_str("http://");
    push_str(&mut s, host);
    push_str(&mut s, ":");
    push_decimal(&mut s, port as u64);
    assert(s@ =~= "http://"@ + host@ + ":"@ + decimal(port as nat));
    s
}

/// The URL that brings the tab with id `tab_id` to the foreground.
pub fn activate_url(host: &str, port: u16, tab_id: &str) -> (s: String)
    ensures
        s@ == "http://"@ + host@ + ":"@ + decimal(port as nat) + "/json/activate/"@ + tab_id@,
{
    let mut s = base_url(host, port);
    push_str(&mut s, "/json/activate/");
    push_str(&mut s, tab_id);
    s
}

} // verus!
