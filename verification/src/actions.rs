//! The action extractor: finds the service-prefix marker on a service
//! page, keeps the anchors whose id starts with the service code, and
//! reads an `Action` out of each anchor that passes the camel-case, row
//! and description heuristics.
use vstd::prelude::*;
use crate::dom::Document;
use crate::records::Action;
use crate::records::SpecAction;
use crate::services::spec_is_prefix;
use crate::text::is_upper_char;
use crate::text::join_space;
use crate::text::push_char;
use crate::text::spec_is_upper;
use crate::text::spec_join_space;
use crate::text::spec_trim;
use crate::text::str_eq;
use crate::text::str_starts_with;
use crate::text::trim_str;
use vstd::string::StrSliceExecFns;
use vstd::string::StringExecFns;

verus! {

/// Whether some ancestor of `i` carries the id of the main content
/// region.
pub open spec fn spec_in_main_region(doc: Document, i: int) -> bool {
    exists|j: int|
        0 <= j < doc.chain(i).len() && doc.in_range(#[trigger] doc.chain(i)[j]) && doc.attr(
            doc.chain(i)[j],
            "id"@,
        ) == Some("main-col-body"@)
}

/// Decides whether some ancestor of `i` carries the main region id.
fn in_main_region(doc: &Document, i: usize) -> (r: bool)
    requires
        doc.wf(),
        (i as int) < doc.num(),
    ensures
        r == spec_in_main_region(*doc, i as int),
{
    let ch = doc.ancestors(i);
    let ghost chain = doc.chain(i as int);
    let mut k: usize = 0;
    while k < ch.len()
        invariant
            doc.wf(),
            (i as int) < doc.num(),
            k <= ch@.len(),
            ch@.map_values(|x: usize| x as int) == chain,
            chain == doc.chain(i as int),
            forall|m: int| 0 <= m < ch@.len() ==> (#[trigger] ch@[m] as int) < doc.num(),
            forall|j: int|
                0 <= j < k ==> !(doc.in_range(#[trigger] chain[j]) && doc.attr(chain[j], "id"@)
                    == Some("main-col-body"@)),
        decreases ch@.len() - k,
    {
        let node = ch[k];
        proof {
            assert(chain[k as int] == node as int);
        }
        if let Some(v) = doc.attr_get(node, "id") {
            if str_eq(v.as_str(), "main-col-body") {
                proof {
                    assert(doc.in_range(chain[k as int]) && doc.attr(chain[k as int], "id"@)
                        == Some("main-col-body"@));
                }
                return true;
            }
        }
        k += 1;
    }
    false
}

/// Whether node `i` is the service-prefix marker: a `code`-tagged element
/// of class `code` inside the main content region.
pub open spec fn spec_is_marker(doc: Document, i: int) -> bool {
    &&& doc.in_range(i)
    &&& doc.is_elem(i)
    &&& doc.tag(i) == "code"@
    &&& doc.spec_has_class(i, "code"@)
    &&& spec_in_main_region(doc, i)
}

/// The first service-prefix marker from node `i` on.
pub open spec fn spec_marker_from(doc: Document, i: int) -> Option<int>
    decreases doc.num() - i,
{
    if i < 0 || i >= doc.num() {
        None
    } else if spec_is_marker(doc, i) {
        Some(i)
    } else {
        spec_marker_from(doc, i + 1)
    }
}

/// The machine-readable action-name prefix of a service page: the first
/// text under the first service-prefix marker. `None` when the page has
/// no marker, or a marker without text: the page yields no actions.
pub open spec fn spec_prefix_text(doc: Document) -> Option<Seq<char>> {
    match spec_marker_from(doc, 0) {
        None => None,
        Some(m) => doc.first_text(m),
    }
}

/// Finds the service-prefix text of a service page.
pub fn prefix_text(doc: &Document) -> (r: Option<String>)
    requires
        doc.wf(),
    ensures
        match r {
            Some(t) => spec_prefix_text(*doc) == Some(t@),
            None => spec_prefix_text(*doc) is None,
        },
{
    let n = doc.nodes.len();
    let mut i: usize = 0;
    while i < n
        invariant
            doc.wf(),
            n == doc.num(),
            i <= n,
            spec_marker_from(*doc, 0) == spec_marker_from(*doc, i as int),
        decreases n - i,
    {
        let m = doc.has_tag(i, "code") && doc.has_class(i, "code") && in_main_region(doc, i);
        if m {
            return match doc.first_text_get(i) {
                Some(t) => Some(t.clone()),
                None => None,
            };
        }
        i += 1;
    }
    None
}

/// The `Action` read out of node `i` of a service page, for the service
/// code `code` and marker text `ptext`, when `i` qualifies: an anchor
/// whose id starts with `<code>-`, whose name part (the trimmed id with
/// the prefix stripped) starts with an uppercase letter, that sits two
/// levels under a table row whose second element cell has text; its
/// address is the href of the anchor's next element sibling, or empty.
pub open spec fn spec_action_at(
    doc: Document,
    i: int,
    code: Seq<char>,
    ptext: Seq<char>,
) -> Option<SpecAction> {
    let prefix = code + seq!['-'];
    if doc.in_range(i) && doc.is_elem(i) && doc.tag(i) == "a"@ {
        match doc.attr(i, "id"@) {
            None => None,
            Some(idv) => if spec_is_prefix(prefix, idv) {
                let idt = spec_trim(idv);
                let part = if spec_is_prefix(prefix, idt) {
                    idt.skip(prefix.len() as int)
                } else {
                    idt
                };
                if part.len() > 0 && spec_is_upper(part[0]) {
                    match doc.parent_of(i) {
                        None => None,
                        Some(p) => match doc.parent_of(p) {
                            None => None,
                            Some(g) => if doc.in_range(g) && doc.is_elem(g) && doc.tag(g)
                                == "tr"@ {
                                if doc.elem_kids(g).len() >= 2 {
                                    let d = spec_trim(
                                        spec_join_space(doc.texts(doc.elem_kids(g)[1])),
                                    );
                                    if d.len() > 0 {
                                        Some(
                                            (SpecAction {
                                                name: ptext + seq![':'] + part,
                                                description: d,
                                                document_uri: spec_sibling_uri(doc, p, i),
                                            }),
                                        )
                                    } else {
                                        None
                                    }
                                } else {
                                    None
                                }
                            } else {
                                None
                            },
                        },
                    }
                } else {
                    None
                }
            } else {
                None
            },
        }
    } else {
        None
    }
}

/// The reference address of an action anchor `c` below its parent `p`:
/// the href of the first element sibling after it, or empty when there is
/// no such sibling or it has no href.
pub open spec fn spec_sibling_uri(doc: Document, p: int, c: int) -> Seq<char> {
    match doc.next_elem_sibling(p, c) {
        None => Seq::empty(),
        Some(s) => match doc.attr(s, "href"@) {
            Some(h) => h,
            None => Seq::empty(),
        },
    }
}

/// The actions of the first `n` nodes of a service page, in document
/// order.
pub open spec fn spec_actions_upto(
    doc: Document,
    code: Seq<char>,
    ptext: Seq<char>,
    n: int,
) -> Seq<SpecAction>
    decreases n,
{
    if n <= 0 {
        Seq::empty()
    } else {
        spec_actions_upto(doc, code, ptext, n - 1) + match spec_action_at(doc, n - 1, code, ptext) {
            Some(a) => seq![a],
            None => Seq::empty(),
        }
    }
}

/// Every action of a service page, in document order, for code `code` and
/// marker text `ptext`.
pub open spec fn spec_extract_actions(doc: Document, code: Seq<char>, ptext: Seq<char>) -> Seq<
    SpecAction,
> {
    spec_actions_upto(doc, code, ptext, doc.num())
}

fn action_at(
    doc: &Document,
    i: usize,
    prefix: &str,
    ptext: &str,
    Ghost(code): Ghost<Seq<char>>,
) -> (r: Option<Action>)
    requires
        doc.wf(),
        (i as int) < doc.num(),
        prefix@ == code + seq!['-'],
    ensures
        match r {
            Some(a) => spec_action_at(*doc, i as int, code, ptext@) == Some(a@),
            None => spec_action_at(*doc, i as int, code, ptext@) is None,
        },
{
    if !doc.has_tag(i, "a") {
        return None;
    }
    let idv = match doc.attr_get(i, "id") {
        None => {
            return None;
        },
        Some(v) => v,
    };
    if !str_starts_with(idv.as_str(), prefix) {
        return None;
    }
    let idt = trim_str(idv.as_str());
    let plen = prefix.unicode_len();
    let part: String;
    if str_starts_with(idt.as_str(), prefix) {
        let l = idt.as_str().unicode_len();
        part = idt.as_str().substring_char(plen, l).to_owned();
        proof {
            assert(part@ =~= spec_trim(idv@).skip(prefix@.len() as int));
        }
    } else {
        part = idt;
    }
    let pn = part.as_str().unicode_len();
    if pn == 0 {
        return None;
    }
    if !is_upper_char(part.as_str().get_char(0)) {
        return None;
    }
    let p = match doc.parent_idx(i) {
        None => {
            return None;
        },
        Some(p) => p,
    };
    proof {
        doc.lemma_parent_bounds(i as int);
    }
    let g = match doc.parent_idx(p) {
        None => {
            return None;
        },
        Some(g) => g,
    };
    proof {
        doc.lemma_parent_bounds(p as int);
    }
    if !doc.has_tag(g, "tr") {
        return None;
    }
    let cells = doc.elem_children(g);
    if cells.len() < 2 {
        return None;
    }
    let cell = cells[1];
    proof {
        assert(doc.elem_kids(g as int)[1] == cell as int);
    }
    let mut cell_texts: Vec<String> = Vec::new();
    doc.collect_texts(cell, &mut cell_texts);
    proof {
        assert(cell_texts.deep_view() =~= doc.texts(cell as int));
    }
    let joined = join_space(&cell_texts);
    let d = trim_str(joined.as_str());
    if d.as_str().unicode_len() == 0 {
        return None;
    }
    let uri: String = match doc.next_elem_sibling_get(p, i) {
        None => String::new(),
        Some(s) => match doc.attr_get(s, "href") {
            Some(h) => h.clone(),
            None => String::new(),
        },
    };
    let mut name = ptext.to_owned();
    push_char(&mut name, ':');
    name.append(part.as_str());
    let act = Action { name, description: d, document_uri: uri };
    proof {
        let sp = spec_action_at(*doc, i as int, code, ptext@)->Some_0;
        assert(act@.name =~= sp.name);
        assert(act@ == sp);
    }
    Some(act)
}

/// Walks a service page and extracts its actions for the service code
/// `code`. Returns `None` exactly when the page has no service-prefix
/// marker with text; every heuristic rejection of a single anchor is a
/// silent skip instead.
pub fn extract_actions(code: &str, doc: &Document) -> (r: Option<Vec<Action>>)
    requires
        doc.wf(),
    ensures
        (r is Some) == (spec_prefix_text(*doc) is Some),
        r matches Some(v) ==> v.deep_view() == spec_extract_actions(
            *doc,
            code@,
            spec_prefix_text(*doc)->Some_0,
        ),
{
    let pt = match prefix_text(doc) {
        None => {
            return None;
        },
        Some(t) => t,
    };
    let mut prefix = code.to_owned();
    push_char(&mut prefix, '-');
    proof {
        assert(prefix@ =~= code@ + seq!['-']);
    }
    let mut out: Vec<Action> = Vec::new();
    let n = doc.nodes.len();
    let mut i: usize = 0;
    proof {
        assert(out.deep_view() =~= spec_actions_upto(*doc, code@, pt@, 0));
    }
    while i < n
        invariant
            doc.wf(),
            n == doc.num(),
            i <= n,
            prefix@ == code@ + seq!['-'],
            out.deep_view() == spec_actions_upto(*doc, code@, pt@, i as int),
        decreases n - i,
    {
        let ghost before = out.deep_view();
        if let Some(a) = action_at(doc, i, prefix.as_str(), pt.as_str(), Ghost(code@)) {
            let ghost av = a@;
            out.push(a);
            proof {
                assert(out.deep_view() =~= before + seq![av]);
            }
        }
        proof {
            assert(out.deep_view() =~= spec_actions_upto(*doc, code@, pt@, i + 1));
        }
        i += 1;
    }
    Some(out)
}

/// Law: an anchor yields an action only if it has an id that starts with
/// `<code>-`; anchors without that prefix are never emitted.
pub proof fn lemma_id_prefix_required(doc: Document, i: int, code: Seq<char>, ptext: Seq<char>)
    ensures
        spec_action_at(doc, i, code, ptext) is Some ==> (doc.attr(i, "id"@) matches Some(idv)
            && spec_is_prefix(code + seq!['-'], idv)),
{
}

/// Law: every emitted action's name is the marker text, a colon, then a
/// part that starts with an uppercase letter.
pub proof fn lemma_action_name_camel(doc: Document, i: int, code: Seq<char>, ptext: Seq<char>)
    ensures
        spec_action_at(doc, i, code, ptext) matches Some(a) ==> a.name.len() > ptext.len() + 1
            && a.name[ptext.len() as int] == ':' && spec_is_upper(a.name[ptext.len() as int + 1]),
{
}

/// Law: every emitted action has a non-empty description; a candidate
/// whose resolved description is empty is dropped.
pub proof fn lemma_description_nonempty(doc: Document, i: int, code: Seq<char>, ptext: Seq<char>)
    ensures
        spec_action_at(doc, i, code, ptext) matches Some(a) ==> a.description.len() > 0,
{
}

/// Law: an anchor yields an action only from inside a table row with a
/// second element cell: two ownership levels above it there is a `tr`
/// element with at least two element children.
pub proof fn lemma_needs_row_and_second_cell(
    doc: Document,
    i: int,
    code: Seq<char>,
    ptext: Seq<char>,
)
    ensures
        spec_action_at(doc, i, code, ptext) is Some ==> (doc.parent_of(i) matches Some(p)
            && (doc.parent_of(doc.parent_of(i)->Some_0) matches Some(g))
            && doc.is_elem(doc.parent_of(doc.parent_of(i)->Some_0)->Some_0)
            && doc.tag(doc.parent_of(doc.parent_of(i)->Some_0)->Some_0) == "tr"@
            && doc.elem_kids(doc.parent_of(doc.parent_of(i)->Some_0)->Some_0).len() >= 2),
{
}

/// Law: every action in the extracted collection comes from some anchor:
/// element `k` of the collection is the record of one qualifying node.
pub proof fn lemma_actions_from_anchors(
    doc: Document,
    code: Seq<char>,
    ptext: Seq<char>,
    n: int,
    k: int,
)
    requires
        0 <= k < spec_actions_upto(doc, code, ptext, n).len(),
    ensures
        exists|i: int|
            0 <= i < n && spec_action_at(doc, i, code, ptext) == Some(
                spec_actions_upto(doc, code, ptext, n)[k],
            ),
    decreases n,
{
    if n > 0 {
        let pre = spec_actions_upto(doc, code, ptext, n - 1);
        if k < pre.len() {
            lemma_actions_from_anchors(doc, code, ptext, n - 1, k);
            let i = choose|i: int|
                0 <= i < n - 1 && spec_action_at(doc, i, code, ptext) == Some(pre[k]);
            assert(spec_actions_upto(doc, code, ptext, n)[k] == pre[k]);
            assert(0 <= i < n && spec_action_at(doc, i, code, ptext) == Some(
                spec_actions_upto(doc, code, ptext, n)[k],
            ));
        } else {
            assert(spec_action_at(doc, n - 1, code, ptext) == Some(
                spec_actions_upto(doc, code, ptext, n)[k],
            ));
        }
    }
}

/// Law: every name in the extracted collection has the camel shape: the
/// marker text, a colon, then an uppercase letter.
pub proof fn lemma_extracted_names_camel(doc: Document, code: Seq<char>, ptext: Seq<char>, k: int)
    requires
        0 <= k < spec_extract_actions(doc, code, ptext).len(),
    ensures
        spec_extract_actions(doc, code, ptext)[k].name.len() > ptext.len() + 1,
        spec_extract_actions(doc, code, ptext)[k].name[ptext.len() as int] == ':',
        spec_is_upper(spec_extract_actions(doc, code, ptext)[k].name[ptext.len() as int + 1]),
        spec_extract_actions(doc, code, ptext)[k].description.len() > 0,
{
    lemma_actions_from_anchors(doc, code, ptext, doc.num(), k);
    let i = choose|i: int|
        0 <= i < doc.num() && spec_action_at(doc, i, code, ptext) == Some(
            spec_extract_actions(doc, code, ptext)[k],
        );
    lemma_action_name_camel(doc, i, code, ptext);
    lemma_description_nonempty(doc, i, code, ptext);
}

} // verus!
