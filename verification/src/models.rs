//! The records that the catalogue pages are read into.
use vstd::prelude::*;
use crate::map::StrMap;

verus! {

/// One row of a table: column name to cell text.
pub type Row = StrMap<String>;

/// A course found by a search or listed in an area.
#[derive(Debug, Clone, PartialEq, Eq)]
pub struct SearchResult {
    pub title: String,
    pub url: String,
    pub event_guid: Option<String>,
    pub term_guid: Option<String>,
    pub summary: String,
}

/// An area or faculty of the catalogue.
#[derive(Debug, Clone, PartialEq, Eq)]
pub struct Field {
    pub name: String,
    pub url: String,
    pub value: Option<String>,
    pub guid: Option<String>,
    pub term_guid: Option<String>,
}

/// The details of one course.
#[derive(Debug, Clone, PartialEq, Eq)]
pub struct EventDetail {
    pub title: String,
    pub url: String,
    pub event_guid: Option<String>,
    pub term_guid: Option<String>,
    pub fields: StrMap<String>,
    pub sections: StrMap<Vec<Row>>,
    pub description: String,
}

/// The text of an optional string.
pub open spec fn opt_view(o: Option<String>) -> Option<Seq<char>> {
    match o {
        Some(s) => Some(s@),
        None => None,
    }
}

/// A search result as text.
pub struct SearchResultView {
    pub title: Seq<char>,
    pub url: Seq<char>,
    pub event_guid: Option<Seq<char>>,
    pub term_guid: Option<Seq<char>>,
    pub summary: Seq<char>,
}

/// A field as text.
pub struct FieldView {
    pub name: Seq<char>,
    pub url: Seq<char>,
    pub value: Option<Seq<char>>,
    pub guid: Option<Seq<char>>,
    pub term_guid: Option<Seq<char>>,
}

/// A course's details as text.
pub struct EventDetailView {
    pub title: Seq<char>,
    pub url: Seq<char>,
    pub event_guid: Option<Seq<char>>,
    pub term_guid: Option<Seq<char>>,
    pub fields: Seq<(Seq<char>, Seq<char>)>,
    pub sections: Seq<(Seq<char>, Seq<Seq<(Seq<char>, Seq<char>)>>)>,
    pub description: Seq<char>,
}

impl View for SearchResult {
    type V = SearchResultView;

    open spec fn view(&self) -> SearchResultView {
        SearchResultView {
            title: self.title@,
            url: self.url@,
            event_guid: opt_view(self.event_guid),
            term_guid: opt_view(self.term_guid),
            summary: self.summary@,
        }
    }
}

impl View for Field {
    type V = FieldView;

    open spec fn view(&self) -> FieldView {
        FieldView {
            name: self.name@,
            url: self.url@,
            value: opt_view(self.value),
            guid: opt_view(self.guid),
            term_guid: opt_view(self.term_guid),
        }
    }
}

impl View for EventDetail {
    type V = EventDetailView;

    open spec fn view(&self) -> EventDetailView {
        EventDetailView {
            title: self.title@,
            url: self.url@,
            event_guid: opt_view(self.event_guid),
            term_guid: opt_view(self.term_guid),
            fields: self.fields@,
            sections: self.sections@,
            description: self.description@,
        }
    }
}

/// The views of a list of search results.
pub open spec fn result_views(v: Seq<SearchResult>) -> Seq<SearchResultView> {
    v.map_values(|r: SearchResult| r@)
}

/// The views of a list of fields.
pub open spec fn field_views(v: Seq<Field>) -> Seq<FieldView> {
    v.map_values(|f: Field| f@)
}

} // verus!
