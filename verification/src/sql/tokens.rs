//! Tokens of SQL, as far as the dialect looks at them.
use crate::text::same_text;
use vstd::prelude::*;

verus! {

/// A token. A word is told by the name of its keyword.
#[derive(Debug)]
pub enum SqlToken {
    Word(String),
    /// A quoted text.
    Text,
    Colon,
    Other,
}

/// What a `SqlToken` holds.
pub enum SqlTokenView {
    Word(Seq<char>),
    Text,
    Colon,
    Other,
}

impl View for SqlToken {
    type V = SqlTokenView;

    open spec fn view(&self) -> SqlTokenView {
        match self {
            SqlToken::Word(w) => SqlTokenView::Word(w@),
            SqlToken::Text => SqlTokenView::Text,
            SqlToken::Colon => SqlTokenView::Colon,
            SqlToken::Other => SqlTokenView::Other,
        }
    }
}

/// What tokens hold.
pub open spec fn tokens_view(t: Seq<SqlToken>) -> Seq<SqlTokenView> {
    t.map_values(|x: SqlToken| x@)
}

/// Whether a keyword stands in a place.
pub open spec fn is_word(t: Seq<SqlTokenView>, i: int, word: Seq<char>) -> bool {
    0 <= i < t.len() && t[i] == SqlTokenView::Word(word)
}

/// Whether AUTHORIZATION stands in a place, and what can be a name behind it.
pub open spec fn is_authorization(t: Seq<SqlTokenView>, i: int) -> bool {
    is_word(t, i, "AUTHORIZATION"@) && i + 1 < t.len() && (t[i + 1] is Word || t[i + 1] is Text)
}

/// Whether a statement sets an AUTHORIZATION without a scope, given the tokens that it
/// starts with.
pub open spec fn lacks_scope(t: Seq<SqlTokenView>) -> bool {
    is_word(t, 0, "SET"@) && (is_authorization(t, 1) || (is_word(t, 1, "HIVEVAR"@) && 2 < t.len()
        && t[2] is Colon && is_authorization(t, 3)))
}

fn word_at(t: &Vec<SqlToken>, i: usize, word: &str) -> (r: bool)
    ensures
        r == is_word(tokens_view(t@), i as int, word@),
{
    if i >= t.len() {
        return false;
    }
    match &t[i] {
        SqlToken::Word(w) => same_text(w.as_str(), word),
        _ => false,
    }
}

fn authorization_at(t: &Vec<SqlToken>, i: usize) -> (r: bool)
    requires
        i < usize::MAX,
    ensures
        r == is_authorization(tokens_view(t@), i as int),
{
    word_at(t, i, "AUTHORIZATION") && i + 1 < t.len() && (matches!(t[i + 1], SqlToken::Word(_))
        || matches!(t[i + 1], SqlToken::Text))
}

/// Finds out whether a statement that starts with some tokens sets an AUTHORIZATION
/// without a scope.
pub fn scope_is_missing(t: &Vec<SqlToken>) -> (r: bool)
    ensures
        r == lacks_scope(tokens_view(t@)),
{
    word_at(t, 0, "SET") && (authorization_at(t, 1) || (word_at(t, 1, "HIVEVAR") && 2 < t.len()
        && matches!(t[2], SqlToken::Colon) && authorization_at(t, 3)))
}

} // verus!
