//! The parser for `SELECT` statements.

use vstd::prelude::*;
use vstd::string::*;
use crate::error::Error;
use crate::sql::{
    condition_views, selectable_views, Condition, ConditionView, SelectStatement,
    SelectStatementView, Selectable, SelectableView, Targetable, TargetableView,
};

verus! {

/// A token of a statement.
#[derive(Debug, Clone, PartialEq, Eq)]
pub enum Token {
    /// A run of letters, digits and underscores.
    Word(String),
    /// What stands between two single quotes.
    Literal(String),
    /// One of `,`, `(`, `)`, `*` and `=`.
    Symbol(char),
}

/// What a `Token` holds.
pub enum TokenView {
    Word(Seq<char>),
    Literal(Seq<char>),
    Symbol(char),
}

impl View for Token {
    type V = TokenView;

    open spec fn view(&self) -> TokenView {
        match self {
            Token::Word(text) => TokenView::Word(text@),
            Token::Literal(text) => TokenView::Literal(text@),
            Token::Symbol(c) => TokenView::Symbol(*c),
        }
    }
}

/// What each of `tokens` holds.
pub open spec fn token_views(tokens: Seq<Token>) -> Seq<TokenView> {
    Seq::new(tokens.len(), |i: int| tokens[i]@)
}

/// Whether `c` separates tokens: a space, a tab, a line feed or a carriage
/// return.
pub open spec fn is_blank(c: char) -> bool {
    c == ' ' || c == '\t' || c == '\n' || c == '\r'
}

/// Whether `c` can stand in a word: an ASCII letter, a digit or an
/// underscore.
pub open spec fn is_word_char(c: char) -> bool {
    ('a' <= c <= 'z') || ('A' <= c <= 'Z') || ('0' <= c <= '9') || c == '_'
}

/// Whether `c` is a token by itself.
pub open spec fn is_symbol(c: char) -> bool {
    c == ',' || c == '(' || c == ')' || c == '*' || c == '='
}

/// The first index at or after `i` that holds no word character.
pub open spec fn word_end(text: Seq<char>, i: int) -> int
    decreases text.len() - i,
{
    if 0 <= i < text.len() && is_word_char(text[i]) {
        word_end(text, i + 1)
    } else {
        i
    }
}

/// The index of the first single quote at or after `i`.
pub open spec fn quote_at(text: Seq<char>, i: int) -> Option<int>
    decreases text.len() - i,
{
    if i < 0 || i >= text.len() {
        None
    } else if text[i] == '\'' {
        Some(i)
    } else {
        quote_at(text, i + 1)
    }
}

/// `tokens` with `token` put before them.
pub open spec fn token_then(token: TokenView, tokens: Option<Seq<TokenView>>) -> Option<
    Seq<TokenView>,
> {
    match tokens {
        Some(rest) => Some(seq![token] + rest),
        None => None,
    }
}

/// `word_end` stays within the text, and moves on from a word character.
pub proof fn lemma_word_end_bounds(text: Seq<char>, i: int)
    requires
        0 <= i <= text.len(),
    ensures
        i <= word_end(text, i) <= text.len(),
        i < text.len() && is_word_char(text[i]) ==> i < word_end(text, i),
    decreases text.len() - i,
{
    if i < text.len() && is_word_char(text[i]) {
        lemma_word_end_bounds(text, i + 1);
    }
}

/// A quote that `quote_at` finds stands at or after the start, within the
/// text.
pub proof fn lemma_quote_at_bounds(text: Seq<char>, i: int)
    requires
        0 <= i <= text.len(),
    ensures
        quote_at(text, i) matches Some(j) ==> i <= j < text.len() && text[j] == '\'',
    decreases text.len() - i,
{
    if i < text.len() && text[i] != '\'' {
        lemma_quote_at_bounds(text, i + 1);
    }
}

/// The tokens of `text` from `i` on.
///
/// Blanks separate tokens. A word runs as far as its characters go, a
/// literal from one single quote to the next, and each symbol stands
/// alone. `None` where a quote is not closed or a character belongs to no
/// token.
pub open spec fn scan(text: Seq<char>, i: int) -> Option<Seq<TokenView>>
    decreases text.len() - i,
    via scan_decreases
{
    if i < 0 || i >= text.len() {
        Some(Seq::empty())
    } else if is_blank(text[i]) {
        scan(text, i + 1)
    } else if is_symbol(text[i]) {
        token_then(TokenView::Symbol(text[i]), scan(text, i + 1))
    } else if text[i] == '\'' {
        match quote_at(text, i + 1) {
            None => None,
            Some(j) => token_then(TokenView::Literal(text.subrange(i + 1, j)), scan(text, j + 1)),
        }
    } else if is_word_char(text[i]) {
        token_then(
            TokenView::Word(text.subrange(i, word_end(text, i))),
            scan(text, word_end(text, i)),
        )
    } else {
        None
    }
}

#[via_fn]
proof fn scan_decreases(text: Seq<char>, i: int) {
    if 0 <= i < text.len() {
        lemma_word_end_bounds(text, i);
        lemma_quote_at_bounds(text, i + 1);
    }
}

/// The code of `c`, with that of the small letter for a capital ASCII
/// letter.
pub open spec fn lower_code(c: char) -> u32 {
    if 'A' <= c <= 'Z' {
        (c as u32 + 32) as u32
    } else {
        c as u32
    }
}

/// Whether `word` is `keyword` but for the case of its ASCII letters.
pub open spec fn same_letters(word: Seq<char>, keyword: Seq<char>) -> bool {
    word.len() == keyword.len() && forall|i: int|
        0 <= i < word.len() ==> lower_code(word[i]) == lower_code(keyword[i])
}

/// Whether `token` is the word `keyword`, in any case.
pub open spec fn is_keyword(token: TokenView, keyword: Seq<char>) -> bool {
    token matches TokenView::Word(word) && same_letters(word, keyword)
}

/// The selectable that starts at token `i`, and the position behind it: a
/// word that no `(` follows is a column, and `COUNT ( * )` counts.
pub open spec fn selectable_at(tokens: Seq<TokenView>, i: int) -> Option<(SelectableView, int)> {
    if 0 <= i < tokens.len() && tokens[i] is Word {
        if i + 1 < tokens.len() && tokens[i + 1] == TokenView::Symbol('(') {
            if is_keyword(tokens[i], "count"@) && i + 3 < tokens.len() && tokens[i + 2]
                == TokenView::Symbol('*') && tokens[i + 3] == TokenView::Symbol(')') {
                Some((SelectableView::CountStar, i + 4))
            } else {
                None
            }
        } else {
            Some((SelectableView::Column(tokens[i]->Word_0), i + 1))
        }
    } else {
        None
    }
}

/// The selectables that start at token `i`, with commas between them, and
/// the position behind the last.
pub open spec fn selectables_from(tokens: Seq<TokenView>, i: int) -> Option<
    (Seq<SelectableView>, int),
>
    decreases tokens.len() - i,
{
    match selectable_at(tokens, i) {
        None => None,
        Some((selectable, j)) => if j < tokens.len() && tokens[j] == TokenView::Symbol(',') {
            match selectables_from(tokens, j + 1) {
                None => None,
                Some((rest, end)) => Some((seq![selectable] + rest, end)),
            }
        } else {
            Some((seq![selectable], j))
        },
    }
}

/// The condition that the three tokens from `i` on spell: a word, `=` and
/// a literal.
pub open spec fn condition_at(tokens: Seq<TokenView>, i: int) -> Option<ConditionView> {
    if 0 <= i && i + 2 < tokens.len() && tokens[i] is Word && tokens[i + 1] == TokenView::Symbol(
        '=',
    ) && tokens[i + 2] is Literal {
        Some(ConditionView { column: tokens[i]->Word_0, value: tokens[i + 2]->Literal_0 })
    } else {
        None
    }
}

/// The conditions that the tokens from `i` to the end spell, with `AND`
/// between them.
pub open spec fn conditions_from(tokens: Seq<TokenView>, i: int) -> Option<Seq<ConditionView>>
    decreases tokens.len() - i,
{
    match condition_at(tokens, i) {
        None => None,
        Some(condition) => if i + 3 == tokens.len() {
            Some(seq![condition])
        } else if is_keyword(tokens[i + 3], "and"@) {
            match conditions_from(tokens, i + 4) {
                None => None,
                Some(rest) => Some(seq![condition] + rest),
            }
        } else {
            None
        },
    }
}

/// The statement that `tokens` spell:
/// `SELECT` selectables `FROM` name, and then nothing or `WHERE`
/// conditions. The keywords count in any case.
pub open spec fn select_of(tokens: Seq<TokenView>) -> Option<SelectStatementView> {
    if tokens.len() == 0 || !is_keyword(tokens[0], "select"@) {
        None
    } else {
        match selectables_from(tokens, 1) {
            None => None,
            Some((selectables, j)) => if j + 1 < tokens.len() && is_keyword(tokens[j], "from"@)
                && tokens[j + 1] is Word {
                let target = TargetableView::TableOrView(tokens[j + 1]->Word_0);
                if j + 2 == tokens.len() {
                    Some(
                        SelectStatementView {
                            selectables,
                            from_target: target,
                            conditions: Seq::empty(),
                        },
                    )
                } else if is_keyword(tokens[j + 2], "where"@) {
                    match conditions_from(tokens, j + 3) {
                        None => None,
                        Some(conditions) => Some(
                            SelectStatementView { selectables, from_target: target, conditions },
                        ),
                    }
                } else {
                    None
                }
            } else {
                None
            },
        }
    }
}

/// The statement that the text `query` spells, if it spells one.
pub open spec fn statement_of(query: Seq<char>) -> Option<SelectStatementView> {
    match scan(query, 0) {
        None => None,
        Some(tokens) => select_of(tokens),
    }
}

/// The characters of `text`.
pub fn chars_of(text: &str) -> (chars: Vec<char>)
    ensures
        chars@ == text@,
{
    let count: usize = text.unicode_len();
    let mut chars: Vec<char> = Vec::new();
    let mut i: usize = 0;
    while i < count
        invariant
            i <= count,
            count == text@.len(),
            chars@ == text@.subrange(0, i as int),
        decreases count - i,
    {
        let c: char = text.get_char(i);
        chars.push(c);
        i = i + 1;
        proof {
            assert(chars@ =~= text@.subrange(0, i as int));
        }
    }
    proof {
        assert(text@.subrange(0, count as int) =~= text@);
    }
    chars
}

/// Whether `c` separates tokens.
pub fn is_blank_char(c: char) -> (result: bool)
    ensures
        result == is_blank(c),
{
    c == ' ' || c == '\t' || c == '\n' || c == '\r'
}

/// Whether `c` can stand in a word.
pub fn is_word_character(c: char) -> (result: bool)
    ensures
        result == is_word_char(c),
{
    let code: u32 = c as u32;
    (97 <= code && code <= 122) || (65 <= code && code <= 90) || (48 <= code && code <= 57)
        || c == '_'
}

/// Whether `c` is a token by itself.
pub fn is_symbol_char(c: char) -> (result: bool)
    ensures
        result == is_symbol(c),
{
    c == ',' || c == '(' || c == ')' || c == '*' || c == '='
}

/// Cuts `query` into its tokens. `None` where a quote is not closed or a
/// character belongs to no token.
pub fn tokenize(query: &str) -> (result: Option<Vec<Token>>)
    ensures
        match scan(query@, 0) {
            Some(tokens) => result matches Some(t) && token_views(t@) == tokens,
            None => result.is_none(),
        },
{
    let chars = chars_of(query);
    let mut tokens: Vec<Token> = Vec::new();
    let mut i: usize = 0;
    proof {
        assert(token_views(tokens@) =~= Seq::<TokenView>::empty());
        if let Some(all) = scan(query@, 0) {
            assert(Seq::<TokenView>::empty() + all =~= all);
        }
    }
    while i < chars.len()
        invariant
            i <= chars.len(),
            chars@ == query@,
            scan(query@, 0) == match scan(query@, i as int) {
                Some(rest) => Some(token_views(tokens@) + rest),
                None => None,
            },
        decreases chars.len() - i,
    {
        let c: char = chars[i];
        let ghost before = token_views(tokens@);
        if is_blank_char(c) {
            i = i + 1;
        } else if is_symbol_char(c) {
            let token = Token::Symbol(c);
            proof {
                assert(token_views(tokens@.push(token)) =~= before.push(token@));
                if let Some(more) = scan(query@, i + 1) {
                    assert(before + (seq![token@] + more) =~= before.push(token@) + more);
                }
            }
            tokens.push(token);
            i = i + 1;
        } else if c == '\'' {
            let mut j: usize = i + 1;
            while j < chars.len() && chars[j] != '\''
                invariant
                    i < j <= chars.len(),
                    chars@ == query@,
                    quote_at(query@, i + 1) == quote_at(query@, j as int),
                decreases chars.len() - j,
            {
                j = j + 1;
            }
            if j >= chars.len() {
                return None;
            }
            let token = Token::Literal(query.substring_char(i + 1, j).to_owned());
            proof {
                assert(token_views(tokens@.push(token)) =~= before.push(token@));
                if let Some(more) = scan(query@, j + 1) {
                    assert(before + (seq![token@] + more) =~= before.push(token@) + more);
                }
            }
            tokens.push(token);
            i = j + 1;
        } else if is_word_character(c) {
            let mut j: usize = i + 1;
            while j < chars.len() && is_word_character(chars[j])
                invariant
                    i < j <= chars.len(),
                    chars@ == query@,
                    word_end(query@, i as int) == word_end(query@, j as int),
                decreases chars.len() - j,
            {
                j = j + 1;
            }
            let token = Token::Word(query.substring_char(i, j).to_owned());
            proof {
                assert(token_views(tokens@.push(token)) =~= before.push(token@));
                if let Some(more) = scan(query@, j as int) {
                    assert(before + (seq![token@] + more) =~= before.push(token@) + more);
                }
            }
            tokens.push(token);
            i = j;
        } else {
            return None;
        }
    }
    proof {
        assert(token_views(tokens@) + Seq::<TokenView>::empty() =~= token_views(tokens@));
    }
    Some(tokens)
}

/// The code of `c`, with that of the small letter for a capital ASCII
/// letter.
pub fn lower_code_of(c: char) -> (code: u32)
    ensures
        code == lower_code(c),
{
    let code: u32 = c as u32;
    if 65 <= code && code <= 90 {
        code + 32
    } else {
        code
    }
}

/// Whether `word` is `keyword` but for the case of its ASCII letters.
pub fn has_same_letters(word: &str, keyword: &str) -> (result: bool)
    ensures
        result == same_letters(word@, keyword@),
{
    let count: usize = word.unicode_len();
    if count != keyword.unicode_len() {
        return false;
    }
    let mut i: usize = 0;
    while i < count
        invariant
            i <= count,
            count == word@.len(),
            count == keyword@.len(),
            forall|j: int| 0 <= j < i ==> lower_code(word@[j]) == lower_code(keyword@[j]),
        decreases count - i,
    {
        if lower_code_of(word.get_char(i)) != lower_code_of(keyword.get_char(i)) {
            return false;
        }
        i = i + 1;
    }
    true
}

/// Whether `token` is the word `keyword`, in any case.
pub fn token_is_keyword(token: &Token, keyword: &str) -> (result: bool)
    ensures
        result == is_keyword(token@, keyword@),
{
    match token {
        Token::Word(word) => has_same_letters(word.as_str(), keyword),
        _ => false,
    }
}

/// Whether `token` is the symbol `symbol`.
pub fn token_is_symbol(token: &Token, symbol: char) -> (result: bool)
    ensures
        result == (token@ == TokenView::Symbol(symbol)),
{
    match token {
        Token::Symbol(c) => *c == symbol,
        _ => false,
    }
}

/// Reads the selectable that starts at token `i`.
pub fn parse_selectable(tokens: &Vec<Token>, i: usize) -> (result: Option<(Selectable, usize)>)
    ensures
        match selectable_at(token_views(tokens@), i as int) {
            Some((selectable, end)) => result matches Some((s, e)) && s@ == selectable && e == end
                && i < e <= tokens@.len(),
            None => result.is_none(),
        },
{
    if i >= tokens.len() {
        return None;
    }
    let name: &String = match &tokens[i] {
        Token::Word(word) => word,
        _ => {
            return None;
        },
    };
    if i + 1 < tokens.len() && token_is_symbol(&tokens[i + 1], '(') {
        if token_is_keyword(&tokens[i], "count") && tokens.len() - i > 3 && token_is_symbol(
            &tokens[i + 2],
            '*',
        ) && token_is_symbol(&tokens[i + 3], ')') {
            Some((Selectable::CountStar, i + 4))
        } else {
            None
        }
    } else {
        Some((Selectable::Column(name.clone()), i + 1))
    }
}

/// Reads the selectables that start at token `i`.
pub fn parse_selectables(tokens: &Vec<Token>, i: usize) -> (result: Option<(Vec<Selectable>, usize)>)
    ensures
        match selectables_from(token_views(tokens@), i as int) {
            Some((selectables, end)) => result matches Some((s, e)) && selectable_views(s@)
                == selectables && e == end && e <= tokens@.len(),
            None => result.is_none(),
        },
{
    if i >= tokens.len() {
        return None;
    }
    let ghost all = token_views(tokens@);
    let mut selectables: Vec<Selectable> = Vec::new();
    let mut at: usize = i;
    proof {
        assert(selectable_views(selectables@) =~= Seq::<SelectableView>::empty());
        if let Some((found, end)) = selectables_from(all, i as int) {
            assert(Seq::<SelectableView>::empty() + found =~= found);
        }
    }
    loop
        invariant
            all == token_views(tokens@),
            at <= tokens.len(),
            selectables_from(all, i as int) == match selectables_from(all, at as int) {
                Some((rest, end)) => Some((selectable_views(selectables@) + rest, end)),
                None => None,
            },
        decreases tokens.len() - at,
    {
        let ghost before = selectable_views(selectables@);
        let (selectable, next) = match parse_selectable(tokens, at) {
            Some(pair) => pair,
            None => {
                return None;
            },
        };
        proof {
            assert(selectable_views(selectables@.push(selectable)) =~= before.push(selectable@));
            assert(before + seq![selectable@] =~= before.push(selectable@));
            if let Some((more, end)) = selectables_from(all, next + 1) {
                assert(before + (seq![selectable@] + more) =~= before.push(selectable@) + more);
            }
        }
        selectables.push(selectable);
        if next < tokens.len() && token_is_symbol(&tokens[next], ',') {
            at = next + 1;
        } else {
            return Some((selectables, next));
        }
    }
}

/// Reads the condition that the three tokens from `i` on spell.
pub fn parse_condition(tokens: &Vec<Token>, i: usize) -> (result: Option<Condition>)
    ensures
        match condition_at(token_views(tokens@), i as int) {
            Some(condition) => result matches Some(c) && c@ == condition && i + 2 < tokens@.len(),
            None => result.is_none(),
        },
{
    if i >= tokens.len() || tokens.len() - i < 3 {
        return None;
    }
    let column: &String = match &tokens[i] {
        Token::Word(word) => word,
        _ => {
            return None;
        },
    };
    if !token_is_symbol(&tokens[i + 1], '=') {
        return None;
    }
    let value: &String = match &tokens[i + 2] {
        Token::Literal(text) => text,
        _ => {
            return None;
        },
    };
    Some(Condition { column: column.clone(), value: value.clone() })
}

/// Reads the conditions that the tokens from `i` to the end spell.
pub fn parse_conditions(tokens: &Vec<Token>, i: usize) -> (result: Option<Vec<Condition>>)
    ensures
        match conditions_from(token_views(tokens@), i as int) {
            Some(conditions) => result matches Some(c) && condition_views(c@) == conditions,
            None => result.is_none(),
        },
{
    let ghost all = token_views(tokens@);
    let mut conditions: Vec<Condition> = Vec::new();
    let mut at: usize = i;
    proof {
        assert(condition_views(conditions@) =~= Seq::<ConditionView>::empty());
        if let Some(found) = conditions_from(all, i as int) {
            assert(Seq::<ConditionView>::empty() + found =~= found);
        }
    }
    loop
        invariant
            all == token_views(tokens@),
            conditions_from(all, i as int) == match conditions_from(all, at as int) {
                Some(rest) => Some(condition_views(conditions@) + rest),
                None => None,
            },
        decreases tokens.len() - at,
    {
        let ghost before = condition_views(conditions@);
        let condition = match parse_condition(tokens, at) {
            Some(condition) => condition,
            None => {
                return None;
            },
        };
        proof {
            assert(condition_views(conditions@.push(condition)) =~= before.push(condition@));
            assert(before + seq![condition@] =~= before.push(condition@));
            if let Some(more) = conditions_from(all, at + 4) {
                assert(before + (seq![condition@] + more) =~= before.push(condition@) + more);
            }
        }
        conditions.push(condition);
        if at + 3 == tokens.len() {
            return Some(conditions);
        }
        if !token_is_keyword(&tokens[at + 3], "and") {
            return None;
        }
        at = at + 4;
    }
}

/// Reads the statement that `tokens` spell.
pub fn parse_tokens(tokens: &Vec<Token>) -> (result: Option<SelectStatement>)
    ensures
        match select_of(token_views(tokens@)) {
            Some(statement) => result matches Some(s) && s@ == statement,
            None => result.is_none(),
        },
{
    if tokens.len() == 0 || !token_is_keyword(&tokens[0], "select") {
        return None;
    }
    let (selectables, j) = match parse_selectables(tokens, 1) {
        Some(pair) => pair,
        None => {
            return None;
        },
    };
    if j >= tokens.len() || tokens.len() - j < 2 || !token_is_keyword(&tokens[j], "from") {
        return None;
    }
    let name: &String = match &tokens[j + 1] {
        Token::Word(word) => word,
        _ => {
            return None;
        },
    };
    let from_target = Targetable::TableOrView(name.clone());
    if j + 2 == tokens.len() {
        let conditions: Vec<Condition> = Vec::new();
        proof {
            assert(condition_views(conditions@) =~= Seq::<ConditionView>::empty());
        }
        return Some(SelectStatement { selectables, from_target, conditions });
    }
    if !token_is_keyword(&tokens[j + 2], "where") {
        return None;
    }
    match parse_conditions(tokens, j + 3) {
        Some(conditions) => Some(SelectStatement { selectables, from_target, conditions }),
        None => None,
    }
}

/// Parses a `SELECT` statement:
/// `SELECT` selectables `FROM` name, and then nothing or `WHERE`
/// conditions.
///
/// The selectables are column names or `COUNT(*)`, with commas between
/// them; the conditions have the form `column = 'literal'`, with `AND`
/// between them. Fails with `SqlParse` for any other text.
pub fn select_statement(query: &str) -> (result: Result<SelectStatement, Error>)
    ensures
        match statement_of(query@) {
            Some(statement) => result matches Ok(s) && s@ == statement,
            None => result == Err::<SelectStatement, Error>(Error::SqlParse),
        },
{
    let tokens = match tokenize(query) {
        Some(tokens) => tokens,
        None => {
            return Err(Error::SqlParse);
        },
    };
    match parse_tokens(&tokens) {
        Some(statement) => Ok(statement),
        None => Err(Error::SqlParse),
    }
}

} // verus!
