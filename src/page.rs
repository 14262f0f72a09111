//! What the library reads from an HTML page through scraper.

use vstd::prelude::*;

use scraper::{ElementRef, Html, Selector};

use crate::agenda::strings_view;
use crate::models::opt_view;

verus! {

/// What a cell of a table shows: the value of its row-span attribute, its
/// text nodes, and the text nodes of its first class-name element.
pub type CellRead = (Option<String>, Vec<String>, Option<Vec<String>>);

pub type CellReadView = (Option<Seq<char>>, Seq<Seq<char>>, Option<Seq<Seq<char>>>);

pub open spec fn cell_read_view(c: CellRead) -> CellReadView {
    (opt_view(c.0), strings_view(c.1@), match c.2 {
        Some(v) => Some(strings_view(v@)),
        None => None,
    })
}

pub open spec fn cells_read_view(t: Seq<Vec<CellRead>>) -> Seq<Seq<CellReadView>> {
    t.map_values(|r: Vec<CellRead>| r@.map_values(|c: CellRead| cell_read_view(c)))
}

pub open spec fn links_view(t: Seq<Vec<Option<String>>>) -> Seq<Seq<Option<Seq<char>>>> {
    t.map_values(|r: Vec<Option<String>>| r@.map_values(|l: Option<String>| opt_view(l)))
}

/// The cells of the rows of the first element of `html` that `css[0]` selects,
/// as scraper reads them: its elements that `css[1]` selects, each with its
/// elements that `css[2]` selects. A cell shows the value of its attribute
/// `span`, its text nodes, and the text nodes of its first element that
/// `css[3]` selects. `None` where there is no first element or a selector does
/// not parse.
pub uninterp spec fn table_cells_of(html: Seq<char>, css: Seq<Seq<char>>, span: Seq<char>) -> Option<Seq<Seq<CellReadView>>>;

/// For the same cells as `table_cells_of`, the attribute `href` of each cell's
/// first element that `css[3]` selects, as scraper reads them.
pub uninterp spec fn table_links_of(html: Seq<char>, css: Seq<Seq<char>>, href: Seq<char>) -> Option<Seq<Seq<Option<Seq<char>>>>>;

/// Relies on scraper's `Html::parse_document`, `Selector::parse`,
/// `Html::select`, `ElementRef::select`, `ElementRef::attr` and
/// `ElementRef::text`: what is read depends on the page text and the selectors alone.
#[verifier::external_body]
pub(crate) fn table_cells(html: &str, css: &Vec<String>, span: &str) -> (r: Option<Vec<Vec<CellRead>>>)
    requires
        css@.len() == 4,
    ensures
        match r {
            Some(t) => table_cells_of(html@, strings_view(css@), span@) == Some(cells_read_view(t@)),
            None => table_cells_of(html@, strings_view(css@), span@) is None,
        },
{
    let doc = Html::parse_document(html);
    let s = css.iter().map(|c| Selector::parse(c).ok()).collect::<Option<Vec<_>>>()?;
    let texts = |x: ElementRef| x.text().map(String::from).collect::<Vec<String>>();
    let table = doc.select(&s[0]).next()?;
    Some(table.select(&s[1]).map(|tr| tr.select(&s[2]).map(|td| (
        td.attr(span).map(String::from),
        texts(td),
        td.select(&s[3]).next().map(texts),
    )).collect()).collect())
}

/// Relies on scraper's `Html::parse_document`, `Selector::parse`,
/// `Html::select`, `ElementRef::select` and `ElementRef::attr`: what is read
/// depends on the page text and the selectors alone.
#[verifier::external_body]
pub(crate) fn table_links(html: &str, css: &Vec<String>, href: &str) -> (r: Option<Vec<Vec<Option<String>>>>)
    requires
        css@.len() == 4,
    ensures
        match r {
            Some(t) => table_links_of(html@, strings_view(css@), href@) == Some(links_view(t@)),
            None => table_links_of(html@, strings_view(css@), href@) is None,
        },
{
    let doc = Html::parse_document(html);
    let s = css.iter().map(|c| Selector::parse(c).ok()).collect::<Option<Vec<_>>>()?;
    let table = doc.select(&s[0]).next()?;
    Some(table.select(&s[1]).map(|tr| tr.select(&s[2]).map(|td| {
        td.select(&s[3]).next().and_then(|a| a.attr(href)).map(String::from)
    }).collect()).collect())
}

/// The text nodes of each element that `para_css` selects under the first
/// element of `html` that `block_css` selects, as scraper reads them; `None`
/// where there is no such first element or a selector does not parse.
pub uninterp spec fn block_paragraphs_of(html: Seq<char>, block_css: Seq<char>, para_css: Seq<char>) -> Option<Seq<Seq<Seq<char>>>>;

pub open spec fn paras_view(paras: Seq<Vec<String>>) -> Seq<Seq<Seq<char>>> {
    paras.map_values(|p: Vec<String>| strings_view(p@))
}

/// Relies on scraper's `Html::parse_document`, `Selector::parse`,
/// `Html::select`, `ElementRef::select` and `ElementRef::text`: the result
/// depends on the page text and the selectors alone.
#[verifier::external_body]
pub(crate) fn block_paragraphs(html: &str, block_css: &str, para_css: &str) -> (r: Option<Vec<Vec<String>>>)
    ensures
        match r {
            Some(p) => block_paragraphs_of(html@, block_css@, para_css@) == Some(paras_view(p@)),
            None => block_paragraphs_of(html@, block_css@, para_css@) is None,
        },
{
    let doc = Html::parse_document(html);
    let (block, para) = (Selector::parse(block_css).ok()?, Selector::parse(para_css).ok()?);
    let first = doc.select(&block).next()?;
    Some(first.select(&para).map(|p| p.text().map(String::from).collect()).collect())
}

} // verus!
