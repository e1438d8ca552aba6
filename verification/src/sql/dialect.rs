//! The dialect that SQL is parsed with.
use crate::sql::node::{
    error_contents, parser_error, peek_tokens, token_contents, token_list, token_node, upcoming,
};
use crate::sql::tokens::{lacks_scope, scope_is_missing, tokens_view, SqlToken};
use sqlparser::ast::Statement;
use sqlparser::dialect::Dialect;
use sqlparser::parser::{Parser, ParserError};
use sqlparser::tokenizer::Token;
use vstd::prelude::*;

verus! {

/// Whether a character is a letter of ASCII.
pub open spec fn is_letter(c: char) -> bool {
    'a' <= c <= 'z' || 'A' <= c <= 'Z'
}

/// Whether a name can start with a character.
pub open spec fn starts_name(c: char) -> bool {
    is_letter(c) || c == '_' || c == '#' || c == '@'
}

/// Whether a character can stand in a name behind the first.
pub open spec fn continues_name(c: char) -> bool {
    starts_name(c) || '0' <= c <= '9' || c == '$'
}

/// The dialect: names may hold `_`, `#`, `@` and, behind the first character, digits
/// and `$`. A FILTER clause may stand behind an aggregate.
#[derive(Debug)]
pub struct KsqlDialect;

impl Default for KsqlDialect {
    fn default() -> (r: KsqlDialect)
        ensures
            r == KsqlDialect,
    {
        KsqlDialect
    }
}

fn read_tokens(list: &Vec<Token>) -> (r: Vec<SqlToken>)
    ensures
        tokens_view(r@) == token_list(list@),
{
    let ghost c = token_list(list@);
    let mut r: Vec<SqlToken> = Vec::new();
    let mut i: usize = 0;
    while i < list.len()
        invariant
            i <= list.len(),
            c == token_list(list@),
            r.len() == i,
            forall|j: int| 0 <= j < i ==> r@[j]@ == c[j],
        decreases list.len() - i,
    {
        proof {
            assert(c[i as int] == token_contents(list@[i as int]));
        }
        r.push(token_node(&list[i]));
        i = i + 1;
    }
    proof {
        assert(tokens_view(r@) =~= c);
    }
    r
}

impl Dialect for KsqlDialect {
    fn is_identifier_start(&self, ch: char) -> (r: bool)
        ensures
            r == starts_name(ch),
    {
        ('a' <= ch && ch <= 'z') || ('A' <= ch && ch <= 'Z') || ch == '_' || ch == '#' || ch == '@'
    }

    fn is_identifier_part(&self, ch: char) -> (r: bool)
        ensures
            r == continues_name(ch),
    {
        ('a' <= ch && ch <= 'z') || ('A' <= ch && ch <= 'Z') || ('0' <= ch && ch <= '9')
            || ch == '_' || ch == '#' || ch == '@' || ch == '$'
    }

    fn supports_filter_during_aggregation(&self) -> (r: bool)
        ensures
            r,
    {
        true
    }

    /// A statement that sets an AUTHORIZATION without a scope is an error. The parser
    /// reads all others itself.
    fn parse_statement(&self, parser: &mut Parser) -> (r: Option<Result<Statement, ParserError>>)
        ensures
            *final(parser) == *old(parser),
            r is Some <==> lacks_scope(upcoming(*old(parser))),
            r matches Some(answer) ==> answer matches Err(e) && error_contents(e)
                == "SET ... AUTHORIZATION must have a scope"@,
    {
        let tokens = read_tokens(&peek_tokens(parser));
        if scope_is_missing(&tokens) {
            Some(Err(parser_error("SET ... AUTHORIZATION must have a scope")))
        } else {
            None
        }
    }
}

} // verus!
