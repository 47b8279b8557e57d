//! A document model for the extractors: an immutable tree of element and
//! text nodes held in one vector, with parent, child and sibling queries.
//! A node is named by its index; a well-formed document gives every node
//! children with strictly larger indices, so every walk terminates.
use vstd::prelude::*;
use crate::text::str_eq;

verus! {

/// One attribute of an element node.
pub struct Attr {
    pub name: String,
    pub value: String,
}

/// What a node holds: an element with a tag and attributes, or a run of text.
pub enum NodeData {
    Element { tag: String, attrs: Vec<Attr> },
    Text { text: String },
}

/// A node of the tree: its data and the indices of its children, in order.
pub struct Node {
    pub data: NodeData,
    pub children: Vec<usize>,
}

/// A document: nodes in insertion order. Build one top-down through
/// [`Document::add_element`] and [`Document::add_text`]; built that way in
/// document order, index order is document order.
pub struct Document {
    pub nodes: Vec<Node>,
}

impl Document {
    /// How many nodes the document holds.
    pub open spec fn num(self) -> int {
        self.nodes@.len() as int
    }

    /// Whether `i` names a node.
    pub open spec fn in_range(self, i: int) -> bool {
        0 <= i < self.num()
    }

    /// The child indices of node `i`, in document order.
    pub open spec fn kids(self, i: int) -> Seq<int> {
        self.nodes@[i].children@.map_values(|c: usize| c as int)
    }

    /// Whether node `i` is an element.
    pub open spec fn is_elem(self, i: int) -> bool {
        self.nodes@[i].data is Element
    }

    /// The tag of element `i`; empty for a text node.
    pub open spec fn tag(self, i: int) -> Seq<char> {
        match self.nodes@[i].data {
            NodeData::Element { tag, .. } => tag@,
            NodeData::Text { .. } => Seq::empty(),
        }
    }

    /// The attributes of element `i`; empty for a text node.
    pub open spec fn attrs(self, i: int) -> Seq<Attr> {
        match self.nodes@[i].data {
            NodeData::Element { attrs, .. } => attrs@,
            NodeData::Text { .. } => Seq::empty(),
        }
    }

    /// The text of node `i`; empty for an element.
    pub open spec fn text(self, i: int) -> Seq<char> {
        match self.nodes@[i].data {
            NodeData::Element { .. } => Seq::empty(),
            NodeData::Text { text } => text@,
        }
    }

    /// Every child index is a node index strictly larger than its parent's.
    pub open spec fn wf(self) -> bool {
        forall|i: int, k: int|
            0 <= i < self.num() && 0 <= k < self.kids(i).len() ==> i < #[trigger] self.kids(i)[k]
                < self.num()
    }

    /// The first node from `i` on whose children include `c`.
    pub open spec fn parent_from(self, c: int, i: int) -> Option<int>
        decreases self.num() - i,
    {
        if i < 0 || i >= self.num() {
            None
        } else if self.kids(i).contains(c) {
            Some(i)
        } else {
            self.parent_from(c, i + 1)
        }
    }

    /// The parent of `c`: the first node whose children include `c`.
    pub open spec fn parent_of(self, c: int) -> Option<int> {
        self.parent_from(c, 0)
    }

    proof fn lemma_parent_from(self, c: int, i: int)
        ensures
            self.parent_from(c, i) matches Some(p) ==> i <= p < self.num() && self.kids(
                p,
            ).contains(c),
        decreases self.num() - i,
    {
        if 0 <= i < self.num() && !self.kids(i).contains(c) {
            self.lemma_parent_from(c, i + 1);
        }
    }

    /// A parent has a strictly smaller index than its child, in a
    /// well-formed document.
    pub proof fn lemma_parent_bounds(self, c: int)
        requires
            self.wf(),
            self.parent_of(c) matches Some(p),
        ensures
            self.parent_of(c) matches Some(p) ==> 0 <= p < self.num() && p < c < self.num(),
    {
        self.lemma_parent_from(c, 0);
        let p = self.parent_of(c)->Some_0;
        let k = choose|k: int| 0 <= k < self.kids(p).len() && self.kids(p)[k] == c;
        assert(p < self.kids(p)[k] < self.num());
    }

    /// The ancestors of `i`, nearest first.
    pub open spec fn chain(self, i: int) -> Seq<int>
        decreases i,
        when self.wf() && 0 <= i < self.num()
        via Self::chain_dec
    {
        match self.parent_of(i) {
            None => Seq::empty(),
            Some(p) => seq![p] + self.chain(p),
        }
    }

    #[via_fn]
    proof fn chain_dec(self, i: int) {
        if self.parent_of(i) matches Some(p) {
            self.lemma_parent_bounds(i);
        }
    }

    /// Looks up the parent of node `c`.
    pub fn parent_idx(&self, c: usize) -> (r: Option<usize>)
        ensures
            match r {
                Some(p) => self.parent_of(c as int) == Some(p as int),
                None => self.parent_of(c as int) is None,
            },
    {
        let n = self.nodes.len();
        let mut i: usize = 0;
        while i < n
            invariant
                i <= n,
                n == self.num(),
                self.parent_from(c as int, 0) == self.parent_from(c as int, i as int),
            decreases n - i,
        {
            if self.kids_contain(i, c) {
                return Some(i);
            }
            i += 1;
        }
        None
    }

    /// Whether the children of node `i` include `c`.
    fn kids_contain(&self, i: usize, c: usize) -> (r: bool)
        requires
            (i as int) < self.num(),
        ensures
            r == self.kids(i as int).contains(c as int),
    {
        let ks = &self.nodes[i].children;
        let mut j: usize = 0;
        while j < ks.len()
            invariant
                j <= ks@.len(),
                ks@ == self.nodes@[i as int].children@,
                forall|k: int| 0 <= k < j ==> self.kids(i as int)[k] != c as int,
            decreases ks@.len() - j,
        {
            if ks[j] == c {
                assert(self.kids(i as int)[j as int] == c as int);
                return true;
            }
            j += 1;
        }
        assert(forall|k: int|
            0 <= k < self.kids(i as int).len() ==> #[trigger] self.kids(i as int)[k] != c as int);
        false
    }

    /// Collects the ancestors of `i`, nearest first.
    pub fn ancestors(&self, i: usize) -> (r: Vec<usize>)
        requires
            self.wf(),
            (i as int) < self.num(),
        ensures
            r@.map_values(|x: usize| x as int) == self.chain(i as int),
            forall|k: int| 0 <= k < r@.len() ==> (#[trigger] r@[k] as int) < self.num(),
    {
        let mut out: Vec<usize> = Vec::new();
        let mut cur: usize = i;
        proof {
            assert(out@.map_values(|x: usize| x as int) =~= Seq::<int>::empty());
        }
        loop
            invariant
                self.wf(),
                0 <= (cur as int) < self.num(),
                self.chain(i as int) =~= out@.map_values(|x: usize| x as int) + self.chain(
                    cur as int,
                ),
                forall|k: int| 0 <= k < out@.len() ==> (#[trigger] out@[k] as int) < self.num(),
            decreases cur,
        {
            match self.parent_idx(cur) {
                None => {
                    proof {
                        assert(self.chain(cur as int) =~= Seq::<int>::empty());
                        assert(self.chain(i as int) =~= out@.map_values(|x: usize| x as int));
                    }
                    return out;
                },
                Some(p) => {
                    proof {
                        self.lemma_parent_bounds(cur as int);
                        let f = |x: usize| x as int;
                        assert(out@.push(p).map_values(f) =~= out@.map_values(f) + seq![
                            p as int,
                        ]);
                        assert(self.chain(cur as int) =~= seq![p as int] + self.chain(p as int));
                        assert(self.chain(i as int) =~= out@.push(p).map_values(f) + self.chain(
                            p as int,
                        ));
                    }
                    out.push(p);
                    cur = p;
                },
            }
        }
    }

    /// The value of the first attribute of element `i` named `name`, from
    /// position `j` on.
    pub open spec fn attr_from(self, i: int, name: Seq<char>, j: int) -> Option<Seq<char>>
        decreases self.attrs(i).len() - j,
    {
        if j < 0 || j >= self.attrs(i).len() {
            None
        } else if self.attrs(i)[j].name@ == name {
            Some(self.attrs(i)[j].value@)
        } else {
            self.attr_from(i, name, j + 1)
        }
    }

    /// The value of the first attribute of element `i` named `name`.
    pub open spec fn attr(self, i: int, name: Seq<char>) -> Option<Seq<char>> {
        self.attr_from(i, name, 0)
    }

    /// Looks up the first attribute of node `i` named `name`.
    pub fn attr_get<'a>(&'a self, i: usize, name: &str) -> (r: Option<&'a String>)
        requires
            (i as int) < self.num(),
        ensures
            match r {
                Some(v) => self.attr(i as int, name@) == Some(v@),
                None => self.attr(i as int, name@) is None,
            },
    {
        match &self.nodes[i].data {
            NodeData::Text { .. } => None,
            NodeData::Element { attrs, .. } => {
                let mut j: usize = 0;
                while j < attrs.len()
                    invariant
                        j <= attrs@.len(),
                        attrs@ == self.attrs(i as int),
                        self.attr_from(i as int, name@, 0) == self.attr_from(
                            i as int,
                            name@,
                            j as int,
                        ),
                    decreases attrs@.len() - j,
                {
                    if str_eq(attrs[j].name.as_str(), name) {
                        return Some(&attrs[j].value);
                    }
                    j += 1;
                }
                None
            },
        }
    }

    /// Whether node `i` is an element (at run time).
    pub fn is_element(&self, i: usize) -> (r: bool)
        requires
            (i as int) < self.num(),
        ensures
            r == self.is_elem(i as int),
    {
        match &self.nodes[i].data {
            NodeData::Element { .. } => true,
            NodeData::Text { .. } => false,
        }
    }

    /// Whether node `i` is an element with the given tag.
    pub fn has_tag(&self, i: usize, t: &str) -> (r: bool)
        requires
            (i as int) < self.num(),
        ensures
            r == (self.is_elem(i as int) && self.tag(i as int) == t@),
    {
        match &self.nodes[i].data {
            NodeData::Element { tag, .. } => str_eq(tag.as_str(), t),
            NodeData::Text { .. } => false,
        }
    }

    /// Whether element `i` carries `w` in its `class` attribute, read as a
    /// whitespace-separated word list.
    pub open spec fn spec_has_class(self, i: int, w: Seq<char>) -> bool {
        match self.attr(i, "class"@) {
            Some(v) => crate::text::spec_has_word(v, w),
            None => false,
        }
    }

    /// Decides whether node `i` carries `w` in its class list.
    pub fn has_class(&self, i: usize, w: &str) -> (r: bool)
        requires
            (i as int) < self.num(),
        ensures
            r == self.spec_has_class(i as int, w@),
    {
        match self.attr_get(i, "class") {
            Some(v) => crate::text::has_word(v.as_str(), w),
            None => false,
        }
    }

    /// The first descendant text of node `i`, in document order: its own
    /// text for a text node, else the first text under its children.
    pub open spec fn first_text(self, i: int) -> Option<Seq<char>>
        decreases self.num() - i, 1int, 0int,
        when self.wf() && 0 <= i < self.num()
    {
        match self.nodes@[i].data {
            NodeData::Text { text } => Some(text@),
            NodeData::Element { .. } => self.first_text_kids(i, 0),
        }
    }

    /// The first descendant text under the children of `i`, from child
    /// position `j` on.
    pub open spec fn first_text_kids(self, i: int, j: int) -> Option<Seq<char>>
        decreases self.num() - i, 0int, self.kids(i).len() - j,
        when self.wf() && 0 <= i < self.num() && 0 <= j
    {
        if j >= self.kids(i).len() {
            None
        } else {
            match self.first_text(self.kids(i)[j]) {
                Some(t) => Some(t),
                None => self.first_text_kids(i, j + 1),
            }
        }
    }

    /// Finds the first descendant text of node `i`.
    pub fn first_text_get<'a>(&'a self, i: usize) -> (r: Option<&'a String>)
        requires
            self.wf(),
            (i as int) < self.num(),
        ensures
            match r {
                Some(t) => self.first_text(i as int) == Some(t@),
                None => self.first_text(i as int) is None,
            },
        decreases self.num() - i, 1int, 0int,
    {
        match &self.nodes[i].data {
            NodeData::Text { text } => Some(text),
            NodeData::Element { .. } => {
                let ks = &self.nodes[i].children;
                let mut j: usize = 0;
                while j < ks.len()
                    invariant
                        self.wf(),
                        (i as int) < self.num(),
                        j <= ks@.len(),
                        ks@ == self.nodes@[i as int].children@,
                        self.is_elem(i as int),
                        self.first_text_kids(i as int, 0) == self.first_text_kids(
                            i as int,
                            j as int,
                        ),
                    decreases ks@.len() - j,
                {
                    let c = ks[j];
                    proof {
                        assert(self.kids(i as int)[j as int] == c as int);
                    }
                    match self.first_text_get(c) {
                        Some(t) => {
                            return Some(t);
                        },
                        None => {
                            j += 1;
                        },
                    }
                }
                None
            },
        }
    }

    /// Every descendant text of node `i`, in document order.
    pub open spec fn texts(self, i: int) -> Seq<Seq<char>>
        decreases self.num() - i, 1int, 0int,
        when self.wf() && 0 <= i < self.num()
    {
        match self.nodes@[i].data {
            NodeData::Text { text } => seq![text@],
            NodeData::Element { .. } => self.texts_kids(i, 0),
        }
    }

    /// Every descendant text under the children of `i`, from child
    /// position `j` on.
    pub open spec fn texts_kids(self, i: int, j: int) -> Seq<Seq<char>>
        decreases self.num() - i, 0int, self.kids(i).len() - j,
        when self.wf() && 0 <= i < self.num() && 0 <= j
    {
        if j >= self.kids(i).len() {
            Seq::empty()
        } else {
            self.texts(self.kids(i)[j]) + self.texts_kids(i, j + 1)
        }
    }

    /// Appends every descendant text of node `i` to `out`, in document
    /// order.
    pub fn collect_texts(&self, i: usize, out: &mut Vec<String>)
        requires
            self.wf(),
            (i as int) < self.num(),
        ensures
            final(out).deep_view() == old(out).deep_view() + self.texts(i as int),
        decreases self.num() - i, 1int, 0int,
    {
        match &self.nodes[i].data {
            NodeData::Text { text } => {
                let t = text.clone();
                out.push(t);
                proof {
                    assert(final(out).deep_view() =~= old(out).deep_view() + self.texts(i as int));
                }
            },
            NodeData::Element { .. } => {
                let ghost out0 = out.deep_view();
                let ks = &self.nodes[i].children;
                let mut j: usize = 0;
                while j < ks.len()
                    invariant
                        self.wf(),
                        (i as int) < self.num(),
                        j <= ks@.len(),
                        ks@ == self.nodes@[i as int].children@,
                        self.is_elem(i as int),
                        out.deep_view() + self.texts_kids(i as int, j as int) =~= out0
                            + self.texts_kids(i as int, 0),
                    decreases ks@.len() - j,
                {
                    let c = ks[j];
                    proof {
                        assert(self.kids(i as int)[j as int] == c as int);
                    }
                    let ghost before = out.deep_view();
                    self.collect_texts(c, out);
                    proof {
                        assert(out.deep_view() + self.texts_kids(i as int, j + 1) =~= before
                            + self.texts_kids(i as int, j as int));
                    }
                    j += 1;
                }
                proof {
                    assert(self.texts_kids(i as int, j as int) =~= Seq::<Seq<char>>::empty());
                    assert(out.deep_view() =~= out0 + self.texts(i as int));
                }
            },
        }
    }

    /// The element children of node `i` among its first `k` children, in
    /// order.
    pub open spec fn elem_kids_upto(self, i: int, k: int) -> Seq<int>
        decreases k,
    {
        if k <= 0 {
            Seq::empty()
        } else {
            let pre = self.elem_kids_upto(i, k - 1);
            let c = self.kids(i)[k - 1];
            if k <= self.kids(i).len() && 0 <= c < self.num() && self.is_elem(c) {
                pre.push(c)
            } else {
                pre
            }
        }
    }

    /// The element children of node `i`, in order.
    pub open spec fn elem_kids(self, i: int) -> Seq<int> {
        self.elem_kids_upto(i, self.kids(i).len() as int)
    }

    /// Collects the element children of node `i`, in order.
    pub fn elem_children(&self, i: usize) -> (r: Vec<usize>)
        requires
            self.wf(),
            (i as int) < self.num(),
        ensures
            r@.map_values(|x: usize| x as int) == self.elem_kids(i as int),
            forall|k: int|
                0 <= k < r@.len() ==> self.in_range(#[trigger] r@[k] as int) && self.is_elem(
                    r@[k] as int,
                ),
    {
        let ks = &self.nodes[i].children;
        let mut out: Vec<usize> = Vec::new();
        let mut j: usize = 0;
        proof {
            assert(out@.map_values(|x: usize| x as int) =~= self.elem_kids_upto(i as int, 0));
        }
        while j < ks.len()
            invariant
                self.wf(),
                (i as int) < self.num(),
                j <= ks@.len(),
                ks@ == self.nodes@[i as int].children@,
                out@.map_values(|x: usize| x as int) == self.elem_kids_upto(i as int, j as int),
                forall|k: int|
                    0 <= k < out@.len() ==> self.in_range(#[trigger] out@[k] as int)
                        && self.is_elem(out@[k] as int),
            decreases ks@.len() - j,
        {
            let c = ks[j];
            proof {
                assert(self.kids(i as int)[j as int] == c as int);
            }
            let ghost f = |x: usize| x as int;
            if self.is_element(c) {
                out.push(c);
                proof {
                    assert(out@.map_values(f) =~= self.elem_kids_upto(i as int, j + 1));
                }
            } else {
                proof {
                    assert(out@.map_values(f) =~= self.elem_kids_upto(i as int, j + 1));
                }
            }
            j += 1;
        }
        out
    }

    /// The position of `x` in `s`, from `j` on; the length of `s` when it
    /// does not occur.
    pub open spec fn idx_of_from(s: Seq<int>, x: int, j: int) -> int
        decreases s.len() - j,
    {
        if j < 0 || j >= s.len() {
            s.len() as int
        } else if s[j] == x {
            j
        } else {
            Self::idx_of_from(s, x, j + 1)
        }
    }

    /// The first element child of `p` from child position `j` on.
    pub open spec fn first_elem_from(self, p: int, j: int) -> Option<int>
        decreases self.kids(p).len() - j,
    {
        if j < 0 || j >= self.kids(p).len() {
            None
        } else {
            let c = self.kids(p)[j];
            if 0 <= c < self.num() && self.is_elem(c) {
                Some(c)
            } else {
                self.first_elem_from(p, j + 1)
            }
        }
    }

    /// The first element among the siblings after `c` below `p`: the next
    /// element child of `p` past the first occurrence of `c`.
    pub open spec fn next_elem_sibling(self, p: int, c: int) -> Option<int> {
        self.first_elem_from(p, Self::idx_of_from(self.kids(p), c, 0) + 1)
    }

    /// Finds the first element sibling after `c` below its parent `p`.
    pub fn next_elem_sibling_get(&self, p: usize, c: usize) -> (r: Option<usize>)
        requires
            self.wf(),
            (p as int) < self.num(),
        ensures
            match r {
                Some(s) => self.next_elem_sibling(p as int, c as int) == Some(s as int)
                    && self.in_range(s as int) && self.is_elem(s as int),
                None => self.next_elem_sibling(p as int, c as int) is None,
            },
    {
        let ks = &self.nodes[p].children;
        let mut j: usize = 0;
        while j < ks.len()
            invariant
                self.wf(),
                (p as int) < self.num(),
                j <= ks@.len(),
                ks@ == self.nodes@[p as int].children@,
                Self::idx_of_from(self.kids(p as int), c as int, 0) == Self::idx_of_from(
                    self.kids(p as int),
                    c as int,
                    j as int,
                ),
            decreases ks@.len() - j,
        {
            proof {
                assert(self.kids(p as int)[j as int] == ks@[j as int] as int);
            }
            if ks[j] == c {
                let mut m: usize = j + 1;
                while m < ks.len()
                    invariant
                        self.wf(),
                        (p as int) < self.num(),
                        j < m,
                        m <= ks@.len(),
                        ks@ == self.nodes@[p as int].children@,
                        self.first_elem_from(p as int, j + 1) == self.first_elem_from(
                            p as int,
                            m as int,
                        ),
                        Self::idx_of_from(self.kids(p as int), c as int, 0) == j as int,
                    decreases ks@.len() - m,
                {
                    let s = ks[m];
                    proof {
                        assert(self.kids(p as int)[m as int] == s as int);
                    }
                    if self.is_element(s) {
                        return Some(s);
                    }
                    m += 1;
                }
                return None;
            }
            j += 1;
        }
        proof {
            assert(Self::idx_of_from(self.kids(p as int), c as int, j as int) == self.kids(
                p as int,
            ).len() as int);
            assert(self.first_elem_from(
                p as int,
                self.kids(p as int).len() as int + 1,
            ) is None);
        }
        None
    }

    /// Makes an empty document.
    pub fn new() -> (d: Document)
        ensures
            d.wf(),
            d.num() == 0,
    {
        Document { nodes: Vec::new() }
    }

    fn attach(&mut self, parent: Option<usize>, data: NodeData) -> (idx: usize)
        requires
            old(self).wf(),
            parent matches Some(p) ==> (p as int) < old(self).num(),
        ensures
            final(self).wf(),
            idx as int == old(self).num(),
            final(self).num() == old(self).num() + 1,
            final(self).nodes@[idx as int].data == data,
            final(self).kids(idx as int) =~= Seq::<int>::empty(),
            forall|j: int|
                0 <= j < old(self).num() ==> final(self).nodes@[j].data == old(self).nodes@[j].data,
            parent matches Some(p) ==> final(self).kids(p as int) =~= old(self).kids(p as int).push(
                idx as int,
            ) && (forall|j: int|
                0 <= j < old(self).num() && j != p as int ==> final(self).kids(j) =~= old(
                    self,
                ).kids(j)),
            parent is None ==> forall|j: int|
                0 <= j < old(self).num() ==> final(self).kids(j) =~= old(self).kids(j),
    {
        let idx = self.nodes.len();
        self.nodes.push(Node { data, children: Vec::new() });
        proof {
            assert(self.kids(idx as int) =~= Seq::<int>::empty());
            assert(forall|j: int|
                0 <= j < old(self).num() ==> self.kids(j) =~= old(self).kids(j));
        }
        if let Some(p) = parent {
            let ghost mid = *self;
            self.nodes[p].children.push(idx);
            proof {
                let f = |c: usize| c as int;
                assert(self.nodes@[p as int].children@ =~= mid.nodes@[p as int].children@.push(
                    idx,
                ));
                assert(self.kids(p as int) =~= mid.kids(p as int).push(idx as int));
                assert(forall|j: int|
                    0 <= j < self.num() && j != p as int ==> self.kids(j) =~= mid.kids(j));
            }
        }
        proof {
            assert forall|i: int, k: int|
                0 <= i < self.num() && 0 <= k < self.kids(i).len() implies i < #[trigger] self.kids(
                i,
            )[k] < self.num() by {
                if i < old(self).num() {
                    if parent matches Some(p) && i == p as int {
                        if k < self.kids(i).len() - 1 {
                            assert(old(self).kids(i)[k] == self.kids(i)[k]);
                        }
                    } else {
                        assert(old(self).kids(i)[k] == self.kids(i)[k]);
                    }
                }
            }
        }
        idx
    }

    /// Adds an element node under `parent` (or as a root when `None`),
    /// returning its index.
    pub fn add_element(&mut self, parent: Option<usize>, tag: String, attrs: Vec<Attr>) -> (idx:
        usize)
        requires
            old(self).wf(),
            parent matches Some(p) ==> (p as int) < old(self).num(),
        ensures
            final(self).wf(),
            idx as int == old(self).num(),
            final(self).num() == old(self).num() + 1,
            final(self).is_elem(idx as int),
            final(self).tag(idx as int) == tag@,
            final(self).attrs(idx as int) == attrs@,
            final(self).kids(idx as int) =~= Seq::<int>::empty(),
            forall|j: int|
                0 <= j < old(self).num() ==> final(self).nodes@[j].data == old(self).nodes@[j].data,
            parent matches Some(p) ==> final(self).kids(p as int) =~= old(self).kids(p as int).push(
                idx as int,
            ) && (forall|j: int|
                0 <= j < old(self).num() && j != p as int ==> final(self).kids(j) =~= old(
                    self,
                ).kids(j)),
            parent is None ==> forall|j: int|
                0 <= j < old(self).num() ==> final(self).kids(j) =~= old(self).kids(j),
    {
        self.attach(parent, NodeData::Element { tag, attrs })
    }

    /// Adds a text node under `parent` (or as a root when `None`),
    /// returning its index.
    pub fn add_text(&mut self, parent: Option<usize>, text: String) -> (idx: usize)
        requires
            old(self).wf(),
            parent matches Some(p) ==> (p as int) < old(self).num(),
        ensures
            final(self).wf(),
            idx as int == old(self).num(),
            final(self).num() == old(self).num() + 1,
            !final(self).is_elem(idx as int),
            final(self).text(idx as int) == text@,
            final(self).kids(idx as int) =~= Seq::<int>::empty(),
            forall|j: int|
                0 <= j < old(self).num() ==> final(self).nodes@[j].data == old(self).nodes@[j].data,
            parent matches Some(p) ==> final(self).kids(p as int) =~= old(self).kids(p as int).push(
                idx as int,
            ) && (forall|j: int|
                0 <= j < old(self).num() && j != p as int ==> final(self).kids(j) =~= old(
                    self,
                ).kids(j)),
            parent is None ==> forall|j: int|
                0 <= j < old(self).num() ==> final(self).kids(j) =~= old(self).kids(j),
    {
        self.attach(parent, NodeData::Text { text })
    }
}

} // verus!
