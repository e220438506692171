//! Column names and the rowid alias of a `CREATE TABLE` statement.

use vstd::prelude::*;
use vstd::slice::{slice_subrange, slice_to_vec};
use crate::error::Error;

verus! {

/// Whether `byte` is ASCII white space: a space, a tab, a line feed, a form
/// feed or a carriage return.
pub open spec fn is_space(byte: u8) -> bool {
    byte == 0x20 || byte == 0x09 || byte == 0x0a || byte == 0x0c || byte == 0x0d
}

/// The index of the first `(` of `text` at or after `i`.
pub open spec fn find_open(text: Seq<u8>, i: int) -> Option<int>
    decreases text.len() - i,
{
    if i < 0 || i >= text.len() {
        None
    } else if text[i] == 0x28 {
        Some(i)
    } else {
        find_open(text, i + 1)
    }
}

/// The index of the `)` at or after `i` that closes the parenthesis which
/// is `depth` levels up, where `depth` is at least one.
pub open spec fn find_close(text: Seq<u8>, i: int, depth: int) -> Option<int>
    decreases text.len() - i,
{
    if i < 0 || i >= text.len() {
        None
    } else if text[i] == 0x28 {
        find_close(text, i + 1, depth + 1)
    } else if text[i] == 0x29 {
        if depth <= 1 {
            Some(i)
        } else {
            find_close(text, i + 1, depth - 1)
        }
    } else {
        find_close(text, i + 1, depth)
    }
}

/// The block of column definitions of a `CREATE TABLE` statement: what
/// stands between the first `(` and the `)` that matches it. `None` where
/// there is no `(` or it is never closed.
pub open spec fn definition_block(ddl: Seq<u8>) -> Option<Seq<u8>> {
    match find_open(ddl, 0) {
        None => None,
        Some(open) => match find_close(ddl, open + 1, 1) {
            None => None,
            Some(close) => Some(ddl.subrange(open + 1, close)),
        },
    }
}

/// The pieces into which the commas outside any parentheses cut `block`,
/// from the piece that starts at `from` on, where the bytes before `i`
/// have been looked at and left `depth` parentheses open.
pub open spec fn definitions_from(block: Seq<u8>, i: int, depth: int, from: int) -> Seq<Seq<u8>>
    decreases block.len() - i,
{
    if i < 0 || i >= block.len() {
        seq![block.subrange(from, block.len() as int)]
    } else if block[i] == 0x2c && depth <= 0 {
        seq![block.subrange(from, i)] + definitions_from(block, i + 1, depth, i + 1)
    } else if block[i] == 0x28 {
        definitions_from(block, i + 1, depth + 1, from)
    } else if block[i] == 0x29 {
        definitions_from(block, i + 1, depth - 1, from)
    } else {
        definitions_from(block, i + 1, depth, from)
    }
}

/// The column definitions of `block`: its pieces between top-level commas.
pub open spec fn definitions_of(block: Seq<u8>) -> Seq<Seq<u8>> {
    definitions_from(block, 0, 0, 0)
}

/// The first index at or after `i` that holds no white space.
pub open spec fn skip_spaces(text: Seq<u8>, i: int) -> int
    decreases text.len() - i,
{
    if 0 <= i < text.len() && is_space(text[i]) {
        skip_spaces(text, i + 1)
    } else {
        i
    }
}

/// The first index at or after `i` that holds white space.
pub open spec fn skip_word(text: Seq<u8>, i: int) -> int
    decreases text.len() - i,
{
    if 0 <= i < text.len() && !is_space(text[i]) {
        skip_word(text, i + 1)
    } else {
        i
    }
}

/// The first run of bytes of `definition` that are not white space: the
/// name of the column that it defines. Empty where there is none.
pub open spec fn first_token(definition: Seq<u8>) -> Seq<u8> {
    let start = skip_spaces(definition, 0);
    definition.subrange(start, skip_word(definition, start))
}

/// The name that each of `definitions` gives.
pub open spec fn names_of(definitions: Seq<Seq<u8>>) -> Seq<Seq<u8>> {
    Seq::new(definitions.len(), |i: int| first_token(definitions[i]))
}

/// The column names of a `CREATE TABLE` statement, in the order in which
/// it declares them; `UnparseableDDL` where it has no block of column
/// definitions.
pub open spec fn column_names_of(ddl: Seq<u8>) -> Result<Seq<Seq<u8>>, Error> {
    match definition_block(ddl) {
        None => Err(Error::UnparseableDDL),
        Some(block) => Ok(names_of(definitions_of(block))),
    }
}

/// `skip_spaces` stays within the text and does not go back.
pub proof fn lemma_skip_spaces_bounds(text: Seq<u8>, i: int)
    requires
        0 <= i <= text.len(),
    ensures
        i <= skip_spaces(text, i) <= text.len(),
        skip_spaces(text, i) < text.len() ==> !is_space(text[skip_spaces(text, i)]),
    decreases text.len() - i,
{
    if i < text.len() && is_space(text[i]) {
        lemma_skip_spaces_bounds(text, i + 1);
    }
}

/// `skip_word` stays within the text, and moves on from a byte that is no
/// white space.
pub proof fn lemma_skip_word_bounds(text: Seq<u8>, i: int)
    requires
        0 <= i <= text.len(),
    ensures
        i <= skip_word(text, i) <= text.len(),
        i < text.len() && !is_space(text[i]) ==> i < skip_word(text, i),
    decreases text.len() - i,
{
    if i < text.len() && !is_space(text[i]) {
        lemma_skip_word_bounds(text, i + 1);
    }
}

/// The words of `text` from `i` on: its runs of bytes that are not white
/// space, in order.
pub open spec fn tokens_from(text: Seq<u8>, i: int) -> Seq<Seq<u8>>
    decreases text.len() - i,
    via tokens_from_decreases
{
    if 0 <= i <= text.len() {
        let start = skip_spaces(text, i);
        if start < text.len() {
            let end = skip_word(text, start);
            seq![text.subrange(start, end)] + tokens_from(text, end)
        } else {
            Seq::empty()
        }
    } else {
        Seq::empty()
    }
}

#[via_fn]
proof fn tokens_from_decreases(text: Seq<u8>, i: int) {
    if 0 <= i <= text.len() {
        lemma_skip_spaces_bounds(text, i);
        let start = skip_spaces(text, i);
        if start < text.len() {
            lemma_skip_word_bounds(text, start);
        }
    }
}

/// `byte` with an ASCII capital letter made small.
pub open spec fn lower(byte: u8) -> u8 {
    if 0x41 <= byte <= 0x5a {
        (byte + 32) as u8
    } else {
        byte
    }
}

/// Whether `token` is `word` but for the case of its ASCII letters.
pub open spec fn same_word(token: Seq<u8>, word: Seq<u8>) -> bool {
    token.len() == word.len() && forall|i: int|
        0 <= i < token.len() ==> lower(token[i]) == lower(word[i])
}

/// The bytes of `INTEGER`.
pub open spec fn word_integer() -> Seq<u8> {
    seq![0x49u8, 0x4eu8, 0x54u8, 0x45u8, 0x47u8, 0x45u8, 0x52u8]
}

/// The bytes of `PRIMARY`.
pub open spec fn word_primary() -> Seq<u8> {
    seq![0x50u8, 0x52u8, 0x49u8, 0x4du8, 0x41u8, 0x52u8, 0x59u8]
}

/// The bytes of `KEY`.
pub open spec fn word_key() -> Seq<u8> {
    seq![0x4bu8, 0x45u8, 0x59u8]
}

/// Whether the words `INTEGER PRIMARY KEY` stand at position `k` of
/// `tokens`, in any case.
pub open spec fn key_words_at(tokens: Seq<Seq<u8>>, k: int) -> bool {
    0 <= k && k + 2 < tokens.len() && same_word(tokens[k], word_integer()) && same_word(
        tokens[k + 1],
        word_primary(),
    ) && same_word(tokens[k + 2], word_key())
}

/// Whether `definition` declares its column `INTEGER PRIMARY KEY`: the
/// three words follow one another somewhere after the column's name.
pub open spec fn declares_rowid_alias(definition: Seq<u8>) -> bool {
    exists|k: int| 1 <= k && #[trigger] key_words_at(tokens_from(definition, 0), k)
}

/// The position of the first of `definitions`, from position `i` on, that
/// declares its column `INTEGER PRIMARY KEY`; `None` where none does.
pub open spec fn rowid_alias_from(definitions: Seq<Seq<u8>>, i: int) -> Option<usize>
    decreases definitions.len() - i,
{
    if i < 0 || i >= definitions.len() {
        None
    } else if declares_rowid_alias(definitions[i]) {
        Some(i as usize)
    } else {
        rowid_alias_from(definitions, i + 1)
    }
}

/// The rowid alias is the first definition that declares its column
/// `INTEGER PRIMARY KEY`.
pub proof fn lemma_rowid_alias_is_first(definitions: Seq<Seq<u8>>, i: int)
    requires
        0 <= i,
        definitions.len() <= usize::MAX,
    ensures
        match rowid_alias_from(definitions, i) {
            Some(alias) => i <= alias < definitions.len() && declares_rowid_alias(
                definitions[alias as int],
            ) && forall|j: int| i <= j < alias ==> !declares_rowid_alias(#[trigger] definitions[j]),
            None => forall|j: int|
                i <= j < definitions.len() ==> !declares_rowid_alias(#[trigger] definitions[j]),
        },
    decreases definitions.len() - i,
{
    if i < definitions.len() && !declares_rowid_alias(definitions[i]) {
        lemma_rowid_alias_is_first(definitions, i + 1);
    }
}

/// The column of a `CREATE TABLE` statement that stands for the rowid: the
/// first one declared `INTEGER PRIMARY KEY`. `None` where there is none,
/// or no block of column definitions.
pub open spec fn rowid_alias_of(ddl: Seq<u8>) -> Option<usize> {
    match definition_block(ddl) {
        Some(block) => rowid_alias_from(definitions_of(block), 0),
        None => None,
    }
}

/// What each of `items` holds.
pub open spec fn byte_views(items: Seq<Vec<u8>>) -> Seq<Seq<u8>> {
    Seq::new(items.len(), |i: int| items[i]@)
}

/// Finds the block of column definitions of `ddl`.
pub fn find_definition_block(ddl: &[u8]) -> (result: Option<&[u8]>)
    ensures
        match definition_block(ddl@) {
            Some(block) => result matches Some(b) && b@ == block,
            None => result.is_none(),
        },
{
    let mut open: usize = 0;
    while open < ddl.len() && ddl[open] != 0x28
        invariant
            open <= ddl.len(),
            find_open(ddl@, 0) == find_open(ddl@, open as int),
        decreases ddl.len() - open,
    {
        open = open + 1;
    }
    if open >= ddl.len() {
        return None;
    }
    let mut i: usize = open + 1;
    let mut depth: usize = 1;
    while i < ddl.len()
        invariant
            open < i <= ddl.len(),
            1 <= depth <= i - open,
            find_open(ddl@, 0) == Some(open as int),
            find_close(ddl@, open + 1, 1) == find_close(ddl@, i as int, depth as int),
        decreases ddl.len() - i,
    {
        let byte: u8 = ddl[i];
        if byte == 0x28 {
            depth = depth + 1;
        } else if byte == 0x29 {
            if depth == 1 {
                return Some(slice_subrange(ddl, open + 1, i));
            }
            depth = depth - 1;
        }
        i = i + 1;
    }
    None
}

/// Cuts `block` at its commas outside any parentheses.
pub fn split_definitions(block: &[u8]) -> (definitions: Vec<Vec<u8>>)
    ensures
        byte_views(definitions@) == definitions_of(block@),
{
    let mut definitions: Vec<Vec<u8>> = Vec::new();
    let mut from: usize = 0;
    let mut opened: usize = 0;
    let mut closed: usize = 0;
    let mut i: usize = 0;
    proof {
        assert(byte_views(definitions@) =~= Seq::<Seq<u8>>::empty());
        assert(Seq::<Seq<u8>>::empty() + definitions_of(block@) =~= definitions_of(block@));
    }
    while i < block.len()
        invariant
            from <= i <= block.len(),
            opened <= i,
            closed <= i,
            definitions_of(block@) == byte_views(definitions@) + definitions_from(
                block@,
                i as int,
                opened - closed,
                from as int,
            ),
        decreases block.len() - i,
    {
        let byte: u8 = block[i];
        let ghost before = byte_views(definitions@);
        if byte == 0x2c && opened <= closed {
            let piece = slice_to_vec(slice_subrange(block, from, i));
            proof {
                let tail = definitions_from(block@, i + 1, opened - closed, i + 1);
                assert(byte_views(definitions@.push(piece)) =~= before.push(piece@));
                assert(before + (seq![piece@] + tail) =~= before.push(piece@) + tail);
            }
            definitions.push(piece);
            from = i + 1;
        } else if byte == 0x28 {
            opened = opened + 1;
        } else if byte == 0x29 {
            closed = closed + 1;
        }
        i = i + 1;
    }
    let piece = slice_to_vec(slice_subrange(block, from, block.len()));
    proof {
        let before = byte_views(definitions@);
        assert(byte_views(definitions@.push(piece)) =~= before.push(piece@));
        assert(before + seq![piece@] =~= before.push(piece@));
    }
    definitions.push(piece);
    definitions
}

/// Finds the first index at or after `i` that holds no white space.
fn skip_spaces_in(text: &[u8], i: usize) -> (end: usize)
    requires
        i <= text.len(),
    ensures
        end == skip_spaces(text@, i as int),
        i <= end <= text.len(),
{
    let mut end: usize = i;
    while end < text.len() && is_space_byte(text[end])
        invariant
            i <= end <= text.len(),
            skip_spaces(text@, i as int) == skip_spaces(text@, end as int),
        decreases text.len() - end,
    {
        end = end + 1;
    }
    end
}

/// Finds the first index at or after `i` that holds white space.
fn skip_word_in(text: &[u8], i: usize) -> (end: usize)
    requires
        i <= text.len(),
    ensures
        end == skip_word(text@, i as int),
        i <= end <= text.len(),
{
    let mut end: usize = i;
    while end < text.len() && !is_space_byte(text[end])
        invariant
            i <= end <= text.len(),
            skip_word(text@, i as int) == skip_word(text@, end as int),
        decreases text.len() - end,
    {
        end = end + 1;
    }
    end
}

/// Whether `byte` is ASCII white space.
pub fn is_space_byte(byte: u8) -> (result: bool)
    ensures
        result == is_space(byte),
{
    byte == 0x20 || byte == 0x09 || byte == 0x0a || byte == 0x0c || byte == 0x0d
}

/// Copies the first word of `definition`.
pub fn take_first_token(definition: &[u8]) -> (token: Vec<u8>)
    ensures
        token@ == first_token(definition@),
{
    let start = skip_spaces_in(definition, 0);
    let end = skip_word_in(definition, start);
    slice_to_vec(slice_subrange(definition, start, end))
}

/// Cuts `text` into its words.
pub fn split_tokens(text: &[u8]) -> (tokens: Vec<Vec<u8>>)
    ensures
        byte_views(tokens@) == tokens_from(text@, 0),
{
    let mut tokens: Vec<Vec<u8>> = Vec::new();
    let mut i: usize = 0;
    proof {
        assert(byte_views(tokens@) =~= Seq::<Seq<u8>>::empty());
        assert(Seq::<Seq<u8>>::empty() + tokens_from(text@, 0) =~= tokens_from(text@, 0));
    }
    loop
        invariant
            i <= text.len(),
            tokens_from(text@, 0) == byte_views(tokens@) + tokens_from(text@, i as int),
        ensures
            tokens_from(text@, 0) == byte_views(tokens@),
        decreases text.len() - i,
    {
        let start = skip_spaces_in(text, i);
        if start >= text.len() {
            proof {
                assert(byte_views(tokens@) + Seq::<Seq<u8>>::empty() =~= byte_views(tokens@));
            }
            break ;
        }
        let end = skip_word_in(text, start);
        let token = slice_to_vec(slice_subrange(text, start, end));
        proof {
            lemma_skip_spaces_bounds(text@, i as int);
            lemma_skip_word_bounds(text@, start as int);
            let before = byte_views(tokens@);
            let tail = tokens_from(text@, end as int);
            assert(byte_views(tokens@.push(token)) =~= before.push(token@));
            assert(before + (seq![token@] + tail) =~= before.push(token@) + tail);
        }
        tokens.push(token);
        i = end;
    }
    tokens
}

/// Makes an ASCII capital letter small.
pub fn lower_byte(byte: u8) -> (result: u8)
    ensures
        result == lower(byte),
{
    if 0x41 <= byte && byte <= 0x5a {
        byte + 32
    } else {
        byte
    }
}

/// Whether `token` is `word` but for the case of its ASCII letters.
pub fn is_same_word(token: &[u8], word: &[u8]) -> (result: bool)
    ensures
        result == same_word(token@, word@),
{
    if token.len() != word.len() {
        return false;
    }
    let mut i: usize = 0;
    while i < token.len()
        invariant
            i <= token.len(),
            token.len() == word.len(),
            forall|j: int| 0 <= j < i ==> lower(token@[j]) == lower(word@[j]),
        decreases token.len() - i,
    {
        if lower_byte(token[i]) != lower_byte(word[i]) {
            return false;
        }
        i = i + 1;
    }
    true
}

/// Whether `definition` declares its column `INTEGER PRIMARY KEY`.
pub fn is_rowid_alias_definition(definition: &[u8]) -> (result: bool)
    ensures
        result == declares_rowid_alias(definition@),
{
    let tokens = split_tokens(definition);
    let integer: Vec<u8> = vec![0x49u8, 0x4eu8, 0x54u8, 0x45u8, 0x47u8, 0x45u8, 0x52u8];
    let primary: Vec<u8> = vec![0x50u8, 0x52u8, 0x49u8, 0x4du8, 0x41u8, 0x52u8, 0x59u8];
    let key: Vec<u8> = vec![0x4bu8, 0x45u8, 0x59u8];
    proof {
        assert(integer@ =~= word_integer());
        assert(primary@ =~= word_primary());
        assert(key@ =~= word_key());
    }
    if tokens.len() < 4 {
        return false;
    }
    let mut k: usize = 1;
    while k + 2 < tokens.len()
        invariant
            1 <= k,
            k + 2 <= tokens.len(),
            integer@ == word_integer(),
            primary@ == word_primary(),
            key@ == word_key(),
            byte_views(tokens@) == tokens_from(definition@, 0),
            forall|j: int| 1 <= j < k ==> !key_words_at(byte_views(tokens@), j),
        decreases tokens.len() - k,
    {
        if is_same_word(tokens[k].as_slice(), integer.as_slice()) && is_same_word(
            tokens[k + 1].as_slice(),
            primary.as_slice(),
        ) && is_same_word(tokens[k + 2].as_slice(), key.as_slice()) {
            proof {
                assert(key_words_at(byte_views(tokens@), k as int));
            }
            return true;
        }
        k = k + 1;
    }
    false
}

/// Finds the first of `definitions` that declares its column
/// `INTEGER PRIMARY KEY`.
pub fn find_rowid_alias(definitions: &Vec<Vec<u8>>) -> (alias: Option<usize>)
    ensures
        alias == rowid_alias_from(byte_views(definitions@), 0),
{
    let mut i: usize = 0;
    while i < definitions.len()
        invariant
            i <= definitions.len(),
            rowid_alias_from(byte_views(definitions@), 0) == rowid_alias_from(
                byte_views(definitions@),
                i as int,
            ),
        decreases definitions.len() - i,
    {
        if is_rowid_alias_definition(definitions[i].as_slice()) {
            return Some(i);
        }
        i = i + 1;
    }
    None
}

/// Finds the column of a `CREATE TABLE` statement that stands for the
/// rowid: the first one declared `INTEGER PRIMARY KEY`. `None` where there
/// is none, or no block of column definitions.
pub fn parse_rowid_alias_from_ddl(ddl: &[u8]) -> (alias: Option<usize>)
    ensures
        alias == rowid_alias_of(ddl@),
        alias matches Some(position) ==> column_names_of(ddl@) matches Ok(names) && position
            < names.len(),
{
    match find_definition_block(ddl) {
        Some(block) => {
            let definitions = split_definitions(block);
            proof {
                lemma_rowid_alias_is_first(byte_views(definitions@), 0);
            }
            find_rowid_alias(&definitions)
        },
        None => None,
    }
}

/// Extracts the column names from a `CREATE TABLE` statement, in the order
/// in which it declares them.
///
/// The names are the first words of the pieces into which the top-level
/// commas cut the block between the statement's outermost parentheses.
/// Fails with `UnparseableDDL` where there is no such block.
pub fn parse_column_names_from_ddl(ddl: &[u8]) -> (result: Result<Vec<Vec<u8>>, Error>)
    ensures
        match column_names_of(ddl@) {
            Ok(names) => result matches Ok(n) && byte_views(n@) == names,
            Err(e) => result == Err::<Vec<Vec<u8>>, Error>(e),
        },
{
    let block = match find_definition_block(ddl) {
        Some(block) => block,
        None => {
            return Err(Error::UnparseableDDL);
        },
    };
    let definitions = split_definitions(block);
    let mut names: Vec<Vec<u8>> = Vec::new();
    let mut i: usize = 0;
    while i < definitions.len()
        invariant
            i <= definitions.len(),
            names.len() == i,
            forall|j: int| 0 <= j < i ==> names@[j]@ == first_token(#[trigger] definitions@[j]@),
        decreases definitions.len() - i,
    {
        let name = take_first_token(definitions[i].as_slice());
        names.push(name);
        i = i + 1;
    }
    proof {
        assert(byte_views(names@) =~= names_of(byte_views(definitions@)));
    }
    Ok(names)
}

} // verus!
