//! The service extractor: walks the index document, keeps the anchors that
//! sit inside the highlighted-services list, and reads a `Service` out of
//! each anchor whose href names a service action page.
use vstd::prelude::*;
use crate::dom::Document;
use crate::records::Service;
use crate::records::SpecService;
use crate::text::push_char;
use crate::text::spec_trim;
use crate::text::trim_str;
use vstd::string::StrSliceExecFns;
use vstd::string::StringExecFns;

verus! {

/// The fixed base of the documentation site, as a character sequence.
pub open spec fn spec_base_path() -> Seq<char> {
    "https://docs.aws.amazon.com/IAM/latest/UserGuide"@
}

/// The base of every service document address; index hrefs are joined onto
/// it verbatim, with a single slash between.
pub fn base_path() -> (r: &'static str)
    ensures
        r@ == spec_base_path(),
{
    "https://docs.aws.amazon.com/IAM/latest/UserGuide"
}

/// Whether `p` is a prefix of `s`.
pub open spec fn spec_is_prefix(p: Seq<char>, s: Seq<char>) -> bool {
    p.len() <= s.len() && p == s.subrange(0, p.len() as int)
}

/// The code captured from an index href: one arbitrary leading character,
/// then `/list_`, then a non-empty code, then `.html`.
pub open spec fn spec_list_code(h: Seq<char>) -> Option<Seq<char>> {
    if h.len() >= 13 && h.subrange(1, 7) == "/list_"@ && h.subrange(h.len() - 5, h.len() as int)
        == ".html"@ {
        Some(h.subrange(7, h.len() - 5))
    } else {
        None
    }
}

/// Captures the service code out of an index href.
pub fn list_code(href: &str) -> (r: Option<String>)
    ensures
        match r {
            Some(c) => spec_list_code(href@) == Some(c@),
            None => spec_list_code(href@) is None,
        },
{
    proof {
        reveal_strlit("/list_");
        reveal_strlit(".html");
    }
    let n = href.unicode_len();
    if n < 13 {
        return None;
    }
    let mid = href.substring_char(1, 7);
    if !crate::text::str_eq(mid, "/list_") {
        return None;
    }
    let tail = href.substring_char(n - 5, n);
    if !crate::text::str_eq(tail, ".html") {
        return None;
    }
    Some(href.substring_char(7, n - 5).to_owned())
}

/// Whether the ancestors of `i`, nearest first, pass through an `li`, above
/// it a `ul`, and above that an element of class `highlights`: the shape of
/// an entry of the highlighted-services list.
pub open spec fn spec_region_anchor(doc: Document, i: int) -> bool {
    exists|j1: int, j2: int, j3: int|
        #![trigger doc.chain(i)[j1], doc.chain(i)[j2], doc.chain(i)[j3]]
        {
            &&& 0 <= j1 < j2 < j3 < doc.chain(i).len()
            &&& doc.in_range(doc.chain(i)[j1]) && doc.is_elem(doc.chain(i)[j1]) && doc.tag(
                doc.chain(i)[j1],
            ) == "li"@
            &&& doc.in_range(doc.chain(i)[j2]) && doc.is_elem(doc.chain(i)[j2]) && doc.tag(
                doc.chain(i)[j2],
            ) == "ul"@
            &&& doc.in_range(doc.chain(i)[j3]) && doc.spec_has_class(doc.chain(i)[j3],
                "highlights"@)
        }
}

/// Decides whether anchor `i` sits inside the highlighted-services list.
pub fn region_anchor(doc: &Document, i: usize) -> (r: bool)
    requires
        doc.wf(),
        (i as int) < doc.num(),
    ensures
        r == spec_region_anchor(*doc, i as int),
{
    let ch = doc.ancestors(i);
    let ghost chain = doc.chain(i as int);
    let mut stage: u8 = 0;
    let mut k: usize = 0;
    while k < ch.len()
        invariant
            doc.wf(),
            (i as int) < doc.num(),
            k <= ch@.len(),
            ch@.map_values(|x: usize| x as int) == chain,
            chain == doc.chain(i as int),
            forall|m: int| 0 <= m < ch@.len() ==> (#[trigger] ch@[m] as int) < doc.num(),
            stage <= 2,
            (stage >= 1) == (exists|j1: int|
                0 <= j1 < k && doc.in_range(#[trigger] chain[j1]) && doc.is_elem(chain[j1])
                    && doc.tag(chain[j1]) == "li"@),
            (stage >= 2) == (exists|j1: int, j2: int|
                #![trigger chain[j1], chain[j2]]
                0 <= j1 < j2 < k && doc.in_range(chain[j1]) && doc.is_elem(chain[j1]) && doc.tag(
                    chain[j1],
                ) == "li"@ && doc.in_range(chain[j2]) && doc.is_elem(chain[j2]) && doc.tag(
                    chain[j2],
                ) == "ul"@),
            !(exists|j1: int, j2: int, j3: int|
                #![trigger chain[j1], chain[j2], chain[j3]]
                0 <= j1 < j2 < j3 < k && doc.in_range(chain[j1]) && doc.is_elem(chain[j1])
                    && doc.tag(chain[j1]) == "li"@ && doc.in_range(chain[j2]) && doc.is_elem(
                    chain[j2],
                ) && doc.tag(chain[j2]) == "ul"@ && doc.in_range(chain[j3])
                    && doc.spec_has_class(chain[j3], "highlights"@)),
        decreases ch@.len() - k,
    {
        let node = ch[k];
        proof {
            assert(chain[k as int] == node as int);
        }
        if stage == 0 {
            if doc.has_tag(node, "li") {
                stage = 1;
                proof {
                    assert(doc.in_range(chain[k as int]) && doc.is_elem(chain[k as int])
                        && doc.tag(chain[k as int]) == "li"@);
                }
            }
        } else if stage == 1 {
            if doc.has_tag(node, "ul") {
                stage = 2;
                proof {
                    let j1 = choose|j1: int|
                        0 <= j1 < k && doc.in_range(#[trigger] chain[j1]) && doc.is_elem(
                            chain[j1],
                        ) && doc.tag(chain[j1]) == "li"@;
                    assert(0 <= j1 < k + 1 && doc.in_range(chain[j1]) && doc.is_elem(chain[j1])
                        && doc.tag(chain[j1]) == "li"@ && doc.in_range(chain[k as int])
                        && doc.is_elem(chain[k as int]) && doc.tag(chain[k as int]) == "ul"@);
                }
            }
        } else {
            if doc.has_class(node, "highlights") {
                proof {
                    let (j1, j2) = choose|j1: int, j2: int|
                        #![trigger chain[j1], chain[j2]]
                        0 <= j1 < j2 < k && doc.in_range(chain[j1]) && doc.is_elem(chain[j1])
                            && doc.tag(chain[j1]) == "li"@ && doc.in_range(chain[j2])
                            && doc.is_elem(chain[j2]) && doc.tag(chain[j2]) == "ul"@;
                    assert(0 <= j1 < j2 < k < chain.len() && doc.in_range(chain[j1])
                        && doc.is_elem(chain[j1]) && doc.tag(chain[j1]) == "li"@ && doc.in_range(
                        chain[j2],
                    ) && doc.is_elem(chain[j2]) && doc.tag(chain[j2]) == "ul"@ && doc.in_range(
                        chain[k as int],
                    ) && doc.spec_has_class(chain[k as int], "highlights"@));
                }
                return true;
            }
        }
        k += 1;
    }
    false
}

/// The `Service` read out of node `i` of the index document, when `i` is a
/// qualifying anchor: its name is the anchor's first text, its code is
/// captured from the href, and its address joins the base path and the
/// trimmed href verbatim.
pub open spec fn spec_service_at(doc: Document, i: int) -> Option<SpecService> {
    if doc.in_range(i) && doc.is_elem(i) && doc.tag(i) == "a"@ && spec_region_anchor(doc, i) {
        match doc.first_text(i) {
            None => None,
            Some(nm) => match doc.attr(i, "href"@) {
                None => None,
                Some(h) => match spec_list_code(h) {
                    None => None,
                    Some(code) => Some(
                        (SpecService {
                            name: nm,
                            code: code,
                            document_uri: spec_base_path() + seq!['/'] + spec_trim(h),
                        }),
                    ),
                },
            },
        }
    } else {
        None
    }
}

/// The services of the first `n` nodes of the index document, in document
/// order.
pub open spec fn spec_services_upto(doc: Document, n: int) -> Seq<SpecService>
    decreases n,
{
    if n <= 0 {
        Seq::empty()
    } else {
        spec_services_upto(doc, n - 1) + match spec_service_at(doc, n - 1) {
            Some(s) => seq![s],
            None => Seq::empty(),
        }
    }
}

/// Every service of the index document, in document order.
pub open spec fn spec_extract_services(doc: Document) -> Seq<SpecService> {
    spec_services_upto(doc, doc.num())
}

/// Walks the index document and extracts its services: each anchor inside
/// the highlighted-services list whose href has the shape
/// `list_<code>.html` yields one record; malformed anchors are skipped.
pub fn extract_services(doc: &Document) -> (r: Vec<Service>)
    requires
        doc.wf(),
    ensures
        r.deep_view() == spec_extract_services(*doc),
{
    let mut out: Vec<Service> = Vec::new();
    let n = doc.nodes.len();
    let mut i: usize = 0;
    proof {
        assert(out.deep_view() =~= spec_services_upto(*doc, 0));
    }
    while i < n
        invariant
            doc.wf(),
            n == doc.num(),
            i <= n,
            out.deep_view() == spec_services_upto(*doc, i as int),
        decreases n - i,
    {
        let ghost before = out.deep_view();
        if doc.has_tag(i, "a") && region_anchor(doc, i) {
            if let Some(nm) = doc.first_text_get(i) {
                let name = nm.clone();
                if let Some(h) = doc.attr_get(i, "href") {
                    if let Some(code) = list_code(h.as_str()) {
                        let mut uri = base_path().to_owned();
                        push_char(&mut uri, '/');
                        let t = trim_str(h.as_str());
                        uri.append(t.as_str());
                        let svc = Service { name, code, document_uri: uri };
                        proof {
                            let sp = spec_service_at(*doc, i as int)->Some_0;
                            assert(svc@.document_uri =~= sp.document_uri);
                            assert(svc@ == sp);
                        }
                        out.push(svc);
                        proof {
                            assert(out.deep_view() =~= before + seq![
                                spec_service_at(*doc, i as int)->Some_0,
                            ]);
                        }
                    }
                }
            }
        }
        proof {
            assert(out.deep_view() =~= spec_services_upto(*doc, i + 1));
        }
        i += 1;
    }
    out
}

/// Law: every extracted service has a non-empty code: an index href
/// qualifies only when its captured code has at least one character.
pub proof fn lemma_service_code_nonempty(doc: Document, i: int)
    ensures
        spec_service_at(doc, i) matches Some(s) ==> s.code.len() > 0,
{
}

} // verus!
