//! The state of one user's session and how it moves.
//!
//! The session itself asks no source. A message from the user changes the
//! state and may name a request; whoever runs the session performs the
//! request and hands the outcome back.

use crate::engine::{
    compare, compared, entry_views, lookup, rows_in_range, ComparisonEntry, QueryFailure,
    SourceOutcome, Verse,
};
use crate::query::{
    build_where_clause, clause_text, compiled, param_texts, search_sql, select_text,
};
use crate::reference::{parse_lookup, parsed, VerseRange};
use crate::text::string_views;
use vstd::prelude::*;

verus! {

/// What the user typed and what was last found for it.
#[derive(Clone, PartialEq, Eq, Debug)]
pub struct Session {
    pub search_input: String,
    pub search_results: Vec<Verse>,
    pub lookup_input: String,
    pub lookup_results: Vec<Verse>,
    pub compare_results: Vec<ComparisonEntry>,
}

/// What the user did.
#[derive(Clone, PartialEq, Eq, Debug)]
pub enum Message {
    SearchChanged(String),
    SearchSubmitted,
    LookupChanged(String),
    LookupSubmitted,
    CompareSubmitted,
}

/// What is to be asked of the sources after a message.
#[derive(Clone, PartialEq, Eq, Debug)]
pub enum Request {
    /// Nothing is to be asked.
    Nothing,
    /// One source is to run the statement `sql` with the values `params`.
    Search { sql: String, params: Vec<String> },
    /// One source is to be asked for the rows of the range.
    Lookup(VerseRange),
    /// Every source is to be asked for the rows of the range.
    Compare(VerseRange),
}

impl Session {
    /// A session in which nothing was typed or found yet.
    pub fn new() -> (session: Session)
        ensures
            session.search_input@.len() == 0,
            session.search_results@.len() == 0,
            session.lookup_input@.len() == 0,
            session.lookup_results@.len() == 0,
            session.compare_results@.len() == 0,
    {
        Session {
            search_input: String::new(),
            search_results: Vec::new(),
            lookup_input: String::new(),
            lookup_results: Vec::new(),
            compare_results: Vec::new(),
        }
    }

    /// True when the two sessions hold the same search input and results.
    pub open spec fn same_search(&self, other: &Session) -> bool {
        self.search_input == other.search_input && self.search_results == other.search_results
    }

    /// Takes a message from the user. A change of an input is kept. A
    /// submitted search asks for the statement of the compiled query. A
    /// submitted lookup drops the last comparison, a submitted comparison
    /// the last lookup; each asks for the range that the lookup input names,
    /// and where the input names none, drops its own last results and asks
    /// for nothing.
    pub fn update(&mut self, message: Message) -> (request: Request)
        ensures
            match message {
                Message::SearchChanged(query) => {
                    &&& request is Nothing
                    &&& final(self).search_input == query
                    &&& final(self).search_results == old(self).search_results
                    &&& final(self).lookup_input == old(self).lookup_input
                    &&& final(self).lookup_results == old(self).lookup_results
                    &&& final(self).compare_results == old(self).compare_results
                },
                Message::SearchSubmitted => {
                    &&& *final(self) == *old(self)
                    &&& request matches Request::Search { sql, params }
                    &&& sql@ == select_text() + clause_text(compiled(old(self).search_input@))
                    &&& string_views(params@) == param_texts(
                        compiled(old(self).search_input@).terms,
                    )
                },
                Message::LookupChanged(query) => {
                    &&& request is Nothing
                    &&& final(self).lookup_input == query
                    &&& final(self).same_search(old(self))
                    &&& final(self).lookup_results == old(self).lookup_results
                    &&& final(self).compare_results == old(self).compare_results
                },
                Message::LookupSubmitted => {
                    &&& final(self).same_search(old(self))
                    &&& final(self).lookup_input == old(self).lookup_input
                    &&& final(self).compare_results@.len() == 0
                    &&& match parsed(old(self).lookup_input@) {
                        Some(range) => {
                            &&& request matches Request::Lookup(found)
                            &&& found@ == range
                            &&& final(self).lookup_results == old(self).lookup_results
                        },
                        None => request is Nothing && final(self).lookup_results@.len() == 0,
                    }
                },
                Message::CompareSubmitted => {
                    &&& final(self).same_search(old(self))
                    &&& final(self).lookup_input == old(self).lookup_input
                    &&& final(self).lookup_results@.len() == 0
                    &&& final(self).compare_results@.len() == 0
                    &&& match parsed(old(self).lookup_input@) {
                        Some(range) => request matches Request::Compare(found) && found@ == range,
                        None => request is Nothing,
                    }
                },
            },
    {
        match message {
            Message::SearchChanged(query) => {
                self.search_input = query;
                Request::Nothing
            },
            Message::SearchSubmitted => {
                let (clause, params) = build_where_clause(self.search_input.as_str());
                Request::Search { sql: search_sql(clause.as_str()), params }
            },
            Message::LookupChanged(query) => {
                self.lookup_input = query;
                Request::Nothing
            },
            Message::LookupSubmitted => {
                self.compare_results.clear();
                match parse_lookup(self.lookup_input.as_str()) {
                    Some(range) => Request::Lookup(range),
                    None => {
                        self.lookup_results.clear();
                        Request::Nothing
                    },
                }
            },
            Message::CompareSubmitted => {
                self.lookup_results.clear();
                self.compare_results.clear();
                match parse_lookup(self.lookup_input.as_str()) {
                    Some(range) => Request::Compare(range),
                    None => Request::Nothing,
                }
            },
        }
    }

    /// Takes what the source answered to a search. The rows found take the
    /// place of the last search results. A failure leaves no results and is
    /// handed back.
    pub fn search_completed(&mut self, outcome: Result<Vec<Verse>, QueryFailure>) -> (r: Result<
        (),
        QueryFailure,
    >)
        ensures
            final(self).search_input == old(self).search_input,
            final(self).lookup_input == old(self).lookup_input,
            final(self).lookup_results == old(self).lookup_results,
            final(self).compare_results == old(self).compare_results,
            match outcome {
                Ok(rows) => r is Ok && final(self).search_results == rows,
                Err(e) => r == Err::<(), QueryFailure>(e) && final(self).search_results@.len()
                    == 0,
            },
    {
        match outcome {
            Ok(rows) => {
                self.search_results = rows;
                Ok(())
            },
            Err(e) => {
                self.search_results.clear();
                Err(e)
            },
        }
    }

    /// Takes what the source answered to a lookup of `range`. The rows in the
    /// range take the place of the last lookup results. A failure leaves no
    /// results and is handed back.
    pub fn lookup_completed(
        &mut self,
        range: &VerseRange,
        outcome: Result<Vec<Verse>, QueryFailure>,
    ) -> (r: Result<(), QueryFailure>)
        ensures
            final(self).same_search(old(self)),
            final(self).lookup_input == old(self).lookup_input,
            final(self).compare_results == old(self).compare_results,
            match outcome {
                Ok(rows) => r is Ok && final(self).lookup_results@ == rows_in_range(
                    *range,
                    rows@,
                ),
                Err(e) => r == Err::<(), QueryFailure>(e) && final(self).lookup_results@.len()
                    == 0,
            },
    {
        match lookup(range, outcome) {
            Ok(found) => {
                self.lookup_results = found;
                Ok(())
            },
            Err(e) => {
                self.lookup_results.clear();
                Err(e)
            },
        }
    }

    /// Takes what the sources answered to a comparison of `range`. The
    /// entries of the sources that answered take the place of the last
    /// comparison.
    pub fn compare_completed(&mut self, range: &VerseRange, outcomes: Vec<SourceOutcome>)
        ensures
            final(self).same_search(old(self)),
            final(self).lookup_input == old(self).lookup_input,
            final(self).lookup_results == old(self).lookup_results,
            entry_views(final(self).compare_results@) == compared(*range, outcomes@),
    {
        self.compare_results = compare(range, outcomes);
    }
}

} // verus!
