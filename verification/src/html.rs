//! Reading elements out of an HTML document with `scraper`, as plain values.
use vstd::prelude::*;

verus! {

/// One element that a CSS selector matched in a document.
pub struct ScrapedElement {
    /// The values of the requested attributes, in the order they were requested.
    pub attrs: Vec<Option<String>>,
    /// The element's text: all its descendant text nodes, concatenated.
    pub text: String,
    /// For each requested inner selector, the text of the first matching descendant.
    pub inner_texts: Vec<Option<String>>,
}

/// A scraped element as `(attribute values, text, inner texts)`.
pub type ElementView = (Seq<Option<Seq<char>>>, Seq<char>, Seq<Option<Seq<char>>>);

/// The characters of an optional string.
pub open spec fn opt_view(s: Option<String>) -> Option<Seq<char>> {
    match s {
        Some(s) => Some(s@),
        None => None,
    }
}

/// The characters of each optional string.
pub open spec fn opt_views(v: Seq<Option<String>>) -> Seq<Option<Seq<char>>> {
    v.map_values(|s: Option<String>| opt_view(s))
}

impl ScrapedElement {
    pub open spec fn view(&self) -> ElementView {
        (opt_views(self.attrs@), self.text@, opt_views(self.inner_texts@))
    }
}

/// The views of scraped elements.
pub open spec fn element_views(v: Seq<ScrapedElement>) -> Seq<ElementView> {
    v.map_values(|e: ScrapedElement| e.view())
}

/// What `scraper` yields for the document `html` and the CSS selector `selector`: for each
/// matching element in document order, the requested attributes `attrs`, its text, and the
/// text of the first descendant matching each selector of `inner`; `None` when a selector
/// does not parse.
pub uninterp spec fn selected_elements(
    html: Seq<char>,
    selector: Seq<char>,
    attrs: Seq<Seq<char>>,
    inner: Seq<Seq<char>>,
) -> Option<Seq<ElementView>>;

/// `scraper`: `Html::parse_document(html)`, then `Html::select` with
/// `Selector::parse(selector)`, reading for each matched element `ElementRef::attr` of each
/// name in `attrs`, `ElementRef::text`, and the text of the first `ElementRef::select` match
/// of each selector in `inner`. Named by `selected_elements`; each element carries one entry
/// per requested attribute and per inner selector.
#[verifier::external_body]
pub(crate) fn select_elements(html: &str, selector: &str, attrs: &Vec<String>, inner: &Vec<String>) -> (r:
    Option<Vec<ScrapedElement>>)
    ensures
        r matches Some(v) ==> Some(element_views(v@)) == selected_elements(
            html@,
            selector@,
            attrs.deep_view(),
            inner.deep_view(),
        ),
        r is None ==> selected_elements(html@, selector@, attrs.deep_view(), inner.deep_view()) is None,
        r matches Some(v) ==> forall|i: int|
            0 <= i < v@.len() ==> #[trigger] v@[i].attrs@.len() == attrs@.len()
                && v@[i].inner_texts@.len() == inner@.len(),
{
    let outer = scraper::Selector::parse(selector).ok()?;
    let sels: Vec<scraper::Selector> = inner.iter().map(|s| scraper::Selector::parse(s).ok()).collect::<Option<_>>()?;
    let doc = scraper::Html::parse_document(html);
    Some(doc.select(&outer).map(|e| ScrapedElement {
        attrs: attrs.iter().map(|a| e.attr(a).map(String::from)).collect(),
        text: e.text().collect(),
        inner_texts: sels.iter().map(|s| e.select(s).next().map(|t| t.text().collect())).collect(),
    }).collect())
}

} // verus!
