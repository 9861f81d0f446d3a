//! Texts as lists of symbols: conversion, splitting, lines.
use vstd::prelude::*;
use crate::alphabet::{all_capital, is_capital, is_capital_letter};

verus! {

/// What is taken on trust of `String::push` of the standard library: after
/// the call the string holds what it held before, followed by `ch`.
pub assume_specification[ String::push ](text: &mut String, ch: char)
    ensures
        final(text)@ == old(text)@.push(ch),
;

/// Whether every symbol of the text is a capital letter.
pub fn is_all_capital(text: &str) -> (result: bool)
    ensures
        result == all_capital(text@),
{
    for symbol in chars: text.chars()
        invariant
            chars.seq() == text@,
            all_capital(text@.take(chars.index() as int)),
    {
        if !is_capital_letter(symbol) {
            assert(!is_capital(text@[chars.index() as int]));
            return false;
        }
        assert forall|i: int| 0 <= i < chars.index() + 1 implies is_capital(
            #[trigger] text@.take(chars.index() + 1)[i],
        ) by {
            if i < chars.index() {
                assert(text@.take(chars.index() as int)[i] == text@[i]);
            }
        }
    }
    assert(text@.take(text@.len() as int) =~= text@);
    true
}

/// The symbols of a text, one by one.
pub fn to_chars(text: &str) -> (symbols: Vec<char>)
    ensures
        symbols@ == text@,
{
    let mut symbols: Vec<char> = Vec::new();
    for symbol in chars: text.chars()
        invariant
            chars.seq() == text@,
            symbols@ == text@.take(chars.index() as int),
    {
        symbols.push(symbol);
        assert(symbols@ =~= text@.take(chars.index() + 1));
    }
    assert(text@.take(text@.len() as int) =~= text@);
    symbols
}

/// A text of the given symbols.
pub fn to_text(symbols: &Vec<char>) -> (text: String)
    ensures
        text@ == symbols@,
{
    let mut text = String::new();
    for i in 0..symbols.len()
        invariant
            text@ == symbols@.take(i as int),
    {
        text.push(symbols[i]);
        assert(text@ =~= symbols@.take(i + 1));
    }
    assert(symbols@.take(symbols@.len() as int) =~= symbols@);
    text
}

/// Whether two lists hold the same symbols.
pub fn same_symbols(first: &Vec<char>, second: &Vec<char>) -> (result: bool)
    ensures
        result == (first@ == second@),
{
    if first.len() != second.len() {
        return false;
    }
    for i in 0..first.len()
        invariant
            first@.len() == second@.len(),
            forall|k: int| 0 <= k < i ==> first@[k] == second@[k],
    {
        if first[i] != second[i] {
            return false;
        }
    }
    assert(first@ =~= second@);
    true
}

/// The texts of a list, as plain values.
pub open spec fn string_views(texts: Seq<String>) -> Seq<Seq<char>> {
    Seq::new(texts.len(), |i: int| texts[i]@)
}

/// The pieces of a list of symbol lists, as plain values.
pub open spec fn piece_views(pieces: Seq<Vec<char>>) -> Seq<Seq<char>> {
    Seq::new(pieces.len(), |i: int| pieces[i]@)
}

/// The pieces into which a separator cuts a text. There is always one piece
/// more than there are separators; a piece may be empty.
pub open spec fn split_on(text: Seq<char>, separator: char) -> Seq<Seq<char>>
    decreases text.len(),
{
    if text.len() == 0 {
        seq![Seq::empty()]
    } else {
        let before = split_on(text.drop_last(), separator);
        if text.last() == separator {
            before.push(Seq::empty())
        } else {
            before.update(before.len() - 1, before.last().push(text.last()))
        }
    }
}

/// A text is cut into at least one piece.
pub proof fn lemma_split_on_len(text: Seq<char>, separator: char)
    ensures
        split_on(text, separator).len() >= 1,
    decreases text.len(),
{
    if text.len() > 0 {
        lemma_split_on_len(text.drop_last(), separator);
    }
}

/// A line without the carriage return that may end it.
pub open spec fn without_carriage_return(line: Seq<char>) -> Seq<char> {
    if line.len() > 0 && line.last() == '\r' {
        line.drop_last()
    } else {
        line
    }
}

/// The lines of a text: its pieces between line feeds. A carriage return at
/// the end of a line is no part of the line, and the text may end with a
/// line feed or without one.
pub open spec fn lines_of(text: Seq<char>) -> Seq<Seq<char>> {
    let pieces = split_on(text, '\n');
    let kept = if pieces.last().len() == 0 {
        pieces.drop_last()
    } else {
        pieces
    };
    Seq::new(kept.len(), |i: int| without_carriage_return(kept[i]))
}

/// Cuts a text at each occurrence of the separator.
pub fn split(text: &Vec<char>, separator: char) -> (pieces: Vec<Vec<char>>)
    ensures
        piece_views(pieces@) == split_on(text@, separator),
        pieces@.len() >= 1,
{
    let mut pieces: Vec<Vec<char>> = Vec::new();
    let mut current: Vec<char> = Vec::new();
    assert(piece_views(pieces@).push(current@) =~= split_on(text@.take(0), separator));
    for i in 0..text.len()
        invariant
            piece_views(pieces@).push(current@) == split_on(text@.take(i as int), separator),
    {
        let ghost before = split_on(text@.take(i as int), separator);
        let ghost done = piece_views(pieces@);
        let ghost open = current@;
        proof {
            assert(text@.take(i + 1).drop_last() =~= text@.take(i as int));
            assert(text@.take(i + 1).last() == text@[i as int]);
        }
        let symbol = text[i];
        if symbol == separator {
            pieces.push(current);
            current = Vec::new();
            assert(piece_views(pieces@) =~= done.push(open));
            assert(piece_views(pieces@).push(current@) =~= before.push(Seq::empty()));
        } else {
            current.push(symbol);
            assert(piece_views(pieces@).push(current@) =~= before.update(
                before.len() - 1,
                before.last().push(symbol),
            ));
        }
    }
    let ghost done = piece_views(pieces@);
    let ghost open = current@;
    pieces.push(current);
    proof {
        assert(text@.take(text@.len() as int) =~= text@);
        assert(piece_views(pieces@) =~= done.push(open));
    }
    pieces
}

/// Cuts a text into its lines.
pub fn lines(text: &Vec<char>) -> (result: Vec<Vec<char>>)
    ensures
        piece_views(result@) == lines_of(text@),
{
    let mut pieces = split(text, '\n');
    let ghost all = piece_views(pieces@);
    let last = pieces.len() - 1;
    if pieces[last].len() == 0 {
        pieces.pop();
    }
    let ghost kept = piece_views(pieces@);
    proof {
        assert(kept =~= if all.last().len() == 0 {
            all.drop_last()
        } else {
            all
        });
    }
    let mut result: Vec<Vec<char>> = Vec::new();
    for i in 0..pieces.len()
        invariant
            kept == piece_views(pieces@),
            result@.len() == i,
            forall|k: int|
                0 <= k < i ==> (#[trigger] result@[k])@ == without_carriage_return(kept[k]),
    {
        let piece = &pieces[i];
        assert(piece@ == kept[i as int]);
        let mut line: Vec<char> = Vec::new();
        let mut length = piece.len();
        if length > 0 && piece[length - 1] == '\r' {
            length = length - 1;
        }
        for j in 0..length
            invariant
                length <= piece@.len(),
                line@ == piece@.take(j as int),
        {
            line.push(piece[j]);
            assert(line@ =~= piece@.take(j + 1));
        }
        assert(line@ =~= without_carriage_return(piece@)) by {
            assert(piece@.take(piece@.len() as int) =~= piece@);
            assert(piece@.take(piece@.len() - 1) =~= piece@.drop_last());
        }
        result.push(line);
    }
    assert(piece_views(result@) =~= lines_of(text@));
    result
}

} // verus!
