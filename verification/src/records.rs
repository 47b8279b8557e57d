//! The two record kinds the extractors produce: a `Service` names a
//! permission namespace, an `Action` one operation under it.
use vstd::prelude::*;

verus! {

/// Mathematical image of a [`Service`]: its fields as character sequences.
pub struct SpecService {
    pub name: Seq<char>,
    pub code: Seq<char>,
    pub document_uri: Seq<char>,
}

/// A top-level permission namespace: a display name, a short code used as
/// an id prefix on its action page, and the address of that page.
#[derive(Clone, Debug, PartialEq, Eq)]
pub struct Service {
    pub name: String,
    pub code: String,
    pub document_uri: String,
}

impl View for Service {
    type V = SpecService;

    open spec fn view(&self) -> SpecService {
        SpecService { name: self.name@, code: self.code@, document_uri: self.document_uri@ }
    }
}

impl DeepView for Service {
    type V = SpecService;

    open spec fn deep_view(&self) -> SpecService {
        self.view()
    }
}

/// Mathematical image of an [`Action`]: its fields as character sequences.
pub struct SpecAction {
    pub name: Seq<char>,
    pub description: Seq<char>,
    pub document_uri: Seq<char>,
}

/// One operation under a service: `name` is `<prefix>:<ActionName>`,
/// `description` a non-empty summary, `document_uri` a reference link or
/// empty when the page offers none.
#[derive(Clone, Debug, PartialEq, Eq)]
pub struct Action {
    pub name: String,
    pub description: String,
    pub document_uri: String,
}

impl View for Action {
    type V = SpecAction;

    open spec fn view(&self) -> SpecAction {
        SpecAction {
            name: self.name@,
            description: self.description@,
            document_uri: self.document_uri@,
        }
    }
}

impl DeepView for Action {
    type V = SpecAction;

    open spec fn deep_view(&self) -> SpecAction {
        self.view()
    }
}

} // verus!
