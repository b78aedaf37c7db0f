//! The query compiler: from what a user typed to a search predicate, and from
//! the predicate to the shape of a parameterized filter.

use crate::text::{
    chars_of, is_and, is_or, is_word, lemma_trimmed_without_space, lemma_word_alone,
    lemma_words_are_words, piece_is_and, piece_is_or, piece_starts_with_not, pieces,
    starts_with_not, string_views, text_between, trimmed, word_bounds, words,
};
use vstd::prelude::*;

verus! {

/// How the conditions of a predicate are joined.
#[derive(Clone, Copy, PartialEq, Eq, Debug)]
pub enum Operator {
    And,
    Or,
}

/// One condition of a predicate: the text holds `text`, or, where `negated`,
/// does not hold it.
#[derive(Clone, PartialEq, Eq, Debug)]
pub struct Term {
    pub text: String,
    pub negated: bool,
}

/// What a [`Term`] stands for.
pub struct TermView {
    pub text: Seq<char>,
    pub negated: bool,
}

impl View for Term {
    type V = TermView;

    open spec fn view(&self) -> TermView {
        TermView { text: self.text@, negated: self.negated }
    }
}

/// A compiled query: terms and the operator that joins them. Without terms
/// it holds of every text.
#[derive(Clone, PartialEq, Eq, Debug)]
pub struct SearchPredicate {
    pub operator: Operator,
    pub terms: Vec<Term>,
}

/// What a [`SearchPredicate`] stands for.
pub struct SearchPredicateView {
    pub operator: Operator,
    pub terms: Seq<TermView>,
}

/// What each of `terms` stands for.
pub open spec fn term_views(terms: Seq<Term>) -> Seq<TermView> {
    Seq::new(terms.len(), |i: int| terms[i]@)
}

impl View for SearchPredicate {
    type V = SearchPredicateView;

    open spec fn view(&self) -> SearchPredicateView {
        SearchPredicateView { operator: self.operator, terms: term_views(self.terms@) }
    }
}

/// True when one of `words` is the keyword AND.
pub open spec fn has_and(words: Seq<Seq<char>>) -> bool {
    exists|k: int| 0 <= k < words.len() && is_and(#[trigger] words[k])
}

/// True when one of `words` is the keyword OR.
pub open spec fn has_or(words: Seq<Seq<char>>) -> bool {
    exists|k: int| 0 <= k < words.len() && is_or(#[trigger] words[k])
}

/// The operator that the words of a query choose: AND where the keyword AND
/// is among them, wherever it stands; else OR where the keyword OR is; else
/// AND.
pub open spec fn operator_of(words: Seq<Seq<char>>) -> Operator {
    if has_and(words) {
        Operator::And
    } else if has_or(words) {
        Operator::Or
    } else {
        Operator::And
    }
}

/// The term that one word of a query gives, if it gives one. The keywords
/// AND and OR give none. A word of more than three characters that starts
/// with NOT gives a negated term of what follows the NOT, trimmed, and none
/// where nothing is left. Every other word is a term as it stands.
pub open spec fn term_of(word: Seq<char>) -> Option<TermView> {
    if is_and(word) || is_or(word) {
        None
    } else if starts_with_not(word) && word.len() > 3 {
        let rest = trimmed(word.skip(3));
        if rest.len() > 0 {
            Some(TermView { text: rest, negated: true })
        } else {
            None
        }
    } else {
        Some(TermView { text: word, negated: false })
    }
}

/// The terms that `words` give, in their order.
pub open spec fn terms_of(words: Seq<Seq<char>>) -> Seq<TermView>
    decreases words.len(),
{
    if words.len() == 0 {
        Seq::empty()
    } else {
        let before = terms_of(words.drop_last());
        match term_of(words.last()) {
            Some(term) => before.push(term),
            None => before,
        }
    }
}

/// The predicate that a query compiles to.
pub open spec fn compiled(query: Seq<char>) -> SearchPredicateView {
    SearchPredicateView { operator: operator_of(words(query)), terms: terms_of(words(query)) }
}

/// Chooses the operator of a query from its words.
fn choose_operator(chars: &Vec<char>, bounds: &Vec<(usize, usize)>) -> (operator: Operator)
    requires
        crate::text::bounds_fit(bounds@, chars@.len()),
    ensures
        operator == operator_of(pieces(chars@, bounds@)),
{
    let ghost all = pieces(chars@, bounds@);
    let mut seen_or = false;
    let mut i: usize = 0;
    while i < bounds.len()
        invariant
            i <= bounds@.len(),
            all == pieces(chars@, bounds@),
            crate::text::bounds_fit(bounds@, chars@.len()),
            forall|k: int| 0 <= k < i ==> !is_and(#[trigger] all[k]),
            seen_or <==> exists|k: int| 0 <= k < i && is_or(#[trigger] all[k]),
        decreases bounds@.len() - i,
    {
        let (start, end) = bounds[i];
        if piece_is_and(chars, start, end) {
            assert(is_and(all[i as int]));
            return Operator::And;
        }
        if piece_is_or(chars, start, end) {
            assert(is_or(all[i as int]));
            seen_or = true;
        }
        i = i + 1;
    }
    if seen_or {
        Operator::Or
    } else {
        Operator::And
    }
}

/// Compiles a query. Its words are split at white space. The keywords AND and
/// OR, in any case, choose the operator and are no terms; the operator is AND
/// where AND occurs at all, and where neither occurs. A word that starts with
/// NOT, in any case, and goes on gives a negated term of what follows; every
/// other word is a term as it stands.
pub fn compile(query: &str) -> (predicate: SearchPredicate)
    ensures
        predicate@ == compiled(query@),
{
    let chars = chars_of(query);
    let bounds = word_bounds(&chars);
    let operator = choose_operator(&chars, &bounds);
    let ghost all = words(query@);
    let mut terms: Vec<Term> = Vec::new();
    let mut i: usize = 0;
    proof {
        lemma_words_are_words(query@);
    }
    while i < bounds.len()
        invariant
            i <= bounds@.len(),
            chars@ == query@,
            all == words(query@),
            all == pieces(chars@, bounds@),
            crate::text::bounds_fit(bounds@, chars@.len()),
            forall|k: int| 0 <= k < all.len() ==> is_word(#[trigger] all[k]),
            term_views(terms@) == terms_of(all.take(i as int)),
        decreases bounds@.len() - i,
    {
        let (start, end) = bounds[i];
        let ghost word = all[i as int];
        proof {
            assert(all.take(i + 1).drop_last() == all.take(i as int));
        }
        let is_keyword = piece_is_and(&chars, start, end) || piece_is_or(&chars, start, end);
        if !is_keyword {
            if piece_starts_with_not(&chars, start, end) && end - start > 3 {
                proof {
                    let rest = word.skip(3);
                    lemma_trimmed_without_space(rest);
                    assert(rest == query@.subrange(start + 3, end as int));
                }
                terms.push(Term { text: text_between(query, start + 3, end), negated: true });
            } else {
                terms.push(Term { text: text_between(query, start, end), negated: false });
            }
        }
        i = i + 1;
    }
    proof {
        assert(all.take(bounds@.len() as int) == all);
    }
    SearchPredicate { operator, terms }
}

/// A query that holds both the keyword AND and the keyword OR compiles to a
/// predicate joined by AND, whichever of the two comes first.
pub proof fn lemma_and_wins_over_or(query: Seq<char>)
    requires
        has_and(words(query)),
        has_or(words(query)),
    ensures
        compiled(query).operator == Operator::And,
{
}

/// A word that starts with NOT and goes on gives a negated term of what
/// follows the three letters.
pub proof fn lemma_not_prefix_negates(word: Seq<char>)
    requires
        is_word(word),
        starts_with_not(word),
        word.len() > 3,
    ensures
        term_of(word) == Some(TermView { text: word.skip(3), negated: true }),
        compiled(word).terms == seq![TermView { text: word.skip(3), negated: true }],
{
    lemma_trimmed_without_space(word.skip(3));
    lemma_single_word_terms(word);
}

/// A word of at most three characters that is no keyword is a term as it
/// stands, not negated: so are NOT alone and NO.
pub proof fn lemma_short_word_is_literal(word: Seq<char>)
    requires
        is_word(word),
        word.len() <= 3,
        !is_and(word),
        !is_or(word),
    ensures
        term_of(word) == Some(TermView { text: word, negated: false }),
        compiled(word).terms == seq![TermView { text: word, negated: false }],
{
    lemma_single_word_terms(word);
}

/// The terms of a query of one word are what that word gives.
pub proof fn lemma_single_word_terms(word: Seq<char>)
    requires
        is_word(word),
    ensures
        compiled(word).terms == match term_of(word) {
            Some(term) => seq![term],
            None => Seq::empty(),
        },
{
    lemma_word_alone(word);
    let all = seq![word];
    assert(terms_of(all.drop_last()) == Seq::<TermView>::empty());
}

/// The condition that one term stands for in a filter. The term's text is
/// no part of it: a `?` holds its place.
pub open spec fn condition_text(negated: bool) -> Seq<char> {
    if negated {
        "text NOT LIKE '%' || ? || '%'"@
    } else {
        "text LIKE '%' || ? || '%'"@
    }
}

/// What stands between two conditions of a filter.
pub open spec fn separator_text(operator: Operator) -> Seq<char> {
    match operator {
        Operator::And => " AND "@,
        Operator::Or => " OR "@,
    }
}

/// The conditions of `terms`, joined by `operator`.
pub open spec fn joined_conditions(operator: Operator, terms: Seq<TermView>) -> Seq<char>
    decreases terms.len(),
{
    if terms.len() == 0 {
        Seq::empty()
    } else if terms.len() == 1 {
        condition_text(terms[0].negated)
    } else {
        joined_conditions(operator, terms.drop_last()) + separator_text(operator) + condition_text(
            terms.last().negated,
        )
    }
}

/// The filter clause of a predicate: its conditions joined by its operator,
/// and a condition that always holds where it has no term.
pub open spec fn clause_text(predicate: SearchPredicateView) -> Seq<char> {
    if predicate.terms.len() == 0 {
        "1"@
    } else {
        joined_conditions(predicate.operator, predicate.terms)
    }
}

/// The values that take the places of the `?` in a filter clause: the texts
/// of the terms, in their order.
pub open spec fn param_texts(terms: Seq<TermView>) -> Seq<Seq<char>> {
    Seq::new(terms.len(), |i: int| terms[i].text)
}

/// Translates a predicate into a filter clause and the values for its
/// placeholders. What the user typed reaches the values only, never the
/// clause.
pub fn where_clause(predicate: &SearchPredicate) -> (filter: (String, Vec<String>))
    ensures
        filter.0@ == clause_text(predicate@),
        string_views(filter.1@) == param_texts(predicate@.terms),
{
    let n = predicate.terms.len();
    let ghost terms = predicate@.terms;
    let mut params: Vec<String> = Vec::new();
    if n == 0 {
        return ("1".to_string(), params);
    }
    let mut clause = String::new();
    let mut i: usize = 0;
    while i < n
        invariant
            i <= n,
            n == predicate.terms@.len(),
            terms == predicate@.terms,
            clause@ == joined_conditions(predicate.operator, terms.take(i as int)),
            string_views(params@) == param_texts(terms.take(i as int)),
        decreases n - i,
    {
        let term = &predicate.terms[i];
        let ghost before = params@;
        proof {
            assert(terms.take(i + 1).drop_last() == terms.take(i as int));
        }
        if i > 0 {
            match predicate.operator {
                Operator::And => clause.append(" AND "),
                Operator::Or => clause.append(" OR "),
            }
        }
        if term.negated {
            clause.append("text NOT LIKE '%' || ? || '%'");
        } else {
            clause.append("text LIKE '%' || ? || '%'");
        }
        params.push(term.text.clone());
        proof {
            assert(string_views(params@) == string_views(before).push(term@.text));
        }
        i = i + 1;
    }
    proof {
        assert(terms.take(n as int) == terms);
    }
    (clause, params)
}

/// Builds the filter for a query: the clause of the predicate it compiles to,
/// and the values for the clause's placeholders.
pub fn build_where_clause(query: &str) -> (filter: (String, Vec<String>))
    ensures
        filter.0@ == clause_text(compiled(query@)),
        string_views(filter.1@) == param_texts(compiled(query@).terms),
{
    let predicate = compile(query);
    where_clause(&predicate)
}

/// What a search statement starts with, up to its filter clause.
pub open spec fn select_text() -> Seq<char> {
    "SELECT b.long_name, v.chapter, v.verse, v.text FROM verses v JOIN books b ON v.book_number = b.book_number WHERE "@
}

/// The statement that searches the verses by a filter clause.
pub fn search_sql(clause: &str) -> (sql: String)
    ensures
        sql@ == select_text() + clause@,
{
    let mut sql =
        "SELECT b.long_name, v.chapter, v.verse, v.text FROM verses v JOIN books b ON v.book_number = b.book_number WHERE ".to_string();
    sql.append(clause);
    sql
}

} // verus!
