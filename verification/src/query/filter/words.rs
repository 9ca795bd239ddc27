//! That a filter is read word by word as it is written.

use crate::float::reading_of;
use crate::float::Reading;
use crate::query::filter::lexer::ident_char;
use crate::query::filter::lexer::ident_end;
use crate::query::filter::lexer::lex_from;
use crate::query::filter::lexer::lex_spec;
use crate::query::filter::lexer::mark_of;
use crate::query::filter::lexer::number_char;
use crate::query::filter::lexer::number_end;
use crate::query::filter::lexer::string_inside;
use crate::query::filter::lexer::tok_at;
use crate::query::filter::lexer::Mark;
use crate::query::filter::lexer::TextModel;
use crate::query::filter::lexer::Tok;
use crate::query::filter::Fault;
use crate::text::white_space;
use vstd::prelude::*;

verus! {

/// A word of a filter, as it is written: a name, a text in quotes, a number or a mark.
pub enum Word {
    Name(Seq<char>),
    Text(Seq<char>),
    Number(Seq<char>),
    Mark(Mark),
}

/// The text with a backslash before each quote and each backslash.
pub open spec fn escaped(text: Seq<char>) -> Seq<char>
    decreases text.len(),
{
    if text.len() == 0 {
        text
    } else if text[0] == '"' || text[0] == '\\' {
        seq!['\\', text[0]] + escaped(text.skip(1))
    } else {
        seq![text[0]] + escaped(text.skip(1))
    }
}

pub open spec fn mark_char(mark: Mark) -> char {
    match mark {
        Mark::LParen => '(',
        Mark::RParen => ')',
        Mark::LBracket => '[',
        Mark::RBracket => ']',
        Mark::Comma => ',',
    }
}

/// How a word is written.
pub open spec fn word_text(word: Word) -> Seq<char> {
    match word {
        Word::Name(name) => name,
        Word::Text(text) => seq!['"'] + escaped(text) + seq!['"'],
        Word::Number(digits) => digits,
        Word::Mark(mark) => seq![mark_char(mark)],
    }
}

/// Whether it can be written so: a name is made of letters, digits and underscores, and does not
/// begin with a digit; a number is made of digits, dots and signs, begins with a digit or a sign,
/// and is one.
pub open spec fn is_word(word: Word, readings: Map<Seq<char>, Reading>) -> bool {
    match word {
        Word::Name(name) => {
            &&& name.len() > 0
            &&& !('0' <= name[0] <= '9')
            &&& forall|i: int|
                0 <= i < name.len() ==> 'a' <= #[trigger] name[i] <= 'z' || 'A' <= name[i] <= 'Z'
                    || '0' <= name[i] <= '9' || name[i] == '_'
        },
        Word::Text(_) => true,
        Word::Number(digits) => {
            &&& digits.len() > 0
            &&& digits[0] != '.'
            &&& forall|i: int|
                0 <= i < digits.len() ==> '0' <= #[trigger] digits[i] <= '9' || digits[i] == '-'
                    || digits[i] == '.'
            &&& reading_of(readings, digits) is Some
        },
        Word::Mark(_) => true,
    }
}

/// What a text is as a number of seconds, which may be followed by the letter for them.
pub open spec fn seconds_in(text: Seq<char>, readings: Map<Seq<char>, Reading>) -> Option<Reading> {
    if text.len() > 0 && text[text.len() - 1] == 's' {
        reading_of(readings, text.take(text.len() - 1))
    } else {
        reading_of(readings, text)
    }
}

/// What a word stands for.
pub open spec fn word_tok(word: Word, readings: Map<Seq<char>, Reading>) -> Tok {
    match word {
        Word::Name(name) => Tok::Ident(name),
        Word::Text(text) => Tok::Text(
            TextModel {
                text,
                number: reading_of(readings, text),
                seconds: seconds_in(text, readings),
            },
        ),
        Word::Number(digits) => Tok::Number(reading_of(readings, digits)->0),
        Word::Mark(mark) => Tok::Mark(mark),
    }
}

/// Words, with a space behind each.
pub open spec fn line(words: Seq<Word>) -> Seq<char>
    decreases words.len(),
{
    if words.len() == 0 {
        Seq::empty()
    } else {
        word_text(words[0]) + seq![' '] + line(words.skip(1))
    }
}

pub open spec fn word_toks(words: Seq<Word>, readings: Map<Seq<char>, Reading>) -> Seq<Tok> {
    words.map_values(|word: Word| word_tok(word, readings))
}

proof fn lemma_ident_end(chars: Seq<char>, from: int, to: int)
    requires
        0 <= from <= to < chars.len(),
        forall|i: int| from <= i < to ==> ident_char(#[trigger] chars[i]),
        !ident_char(chars[to]),
    ensures
        ident_end(chars, from) == to,
    decreases to - from,
{
    if from < to {
        lemma_ident_end(chars, from + 1, to);
    }
}

proof fn lemma_number_end(chars: Seq<char>, from: int, to: int)
    requires
        0 <= from <= to < chars.len(),
        forall|i: int| from <= i < to ==> number_char(#[trigger] chars[i]),
        !number_char(chars[to]),
    ensures
        number_end(chars, from) == to,
    decreases to - from,
{
    if from < to {
        lemma_number_end(chars, from + 1, to);
    }
}

proof fn lemma_string_inside(chars: Seq<char>, from: int, text: Seq<char>)
    requires
        0 <= from,
        from + escaped(text).len() < chars.len(),
        chars.subrange(from, from + escaped(text).len()) == escaped(text),
        chars[from + escaped(text).len()] == '"',
    ensures
        string_inside(chars, from, '"') == Ok::<_, Fault>((text, from + escaped(text).len() + 1)),
    decreases text.len(),
{
    let all = escaped(text);
    let part = chars.subrange(from, from + all.len());
    if text.len() == 0 {
        assert(text =~= Seq::<char>::empty());
    } else {
        let rest = text.skip(1);
        let step: int = if text[0] == '"' || text[0] == '\\' {
            2
        } else {
            1
        };
        assert(part[0] == chars[from]);
        if step == 2 {
            assert(part[1] == chars[from + 1]);
        }
        assert(chars.subrange(from + step, from + step + escaped(rest).len()) =~= escaped(
            rest,
        )) by {
            assert forall|i: int| 0 <= i < escaped(rest).len() implies chars[from + step + i]
                == escaped(rest)[i] by {
                assert(part[step + i] == all[step + i]);
            }
        }
        lemma_string_inside(chars, from + step, rest);
        assert(seq![text[0]] + rest =~= text);
    }
}

proof fn lemma_word(pre: Seq<char>, word: Word, post: Seq<char>, readings: Map<Seq<char>, Reading>)
    requires
        is_word(word, readings),
    ensures
        ({
            let chars = pre + word_text(word) + seq![' '] + post;
            let at = pre.len() as int;
            &&& !white_space(chars[at])
            &&& word_text(word).len() > 0
            &&& tok_at(chars, at, readings) == Ok::<_, Fault>(
                (word_tok(word, readings), at + word_text(word).len()),
            )
        }),
{
    let text = word_text(word);
    let chars = pre + text + seq![' '] + post;
    let at = pre.len() as int;
    let end = at + text.len();
    assert(chars[at] == text[0]);
    assert(chars[end] == ' ');
    assert(chars.subrange(at, end) =~= text);
    assert forall|i: int| at <= i < end implies #[trigger] chars[i] == text[i - at] by {}
    match word {
        Word::Name(name) => {
            assert forall|i: int| at <= i < end implies ident_char(#[trigger] chars[i]) by {
                assert(chars[i] == name[i - at]);
            }
            lemma_ident_end(chars, at, end);
        },
        Word::Text(inside) => {
            let body = escaped(inside);
            assert(chars.subrange(at + 1, at + 1 + body.len()) =~= body) by {
                assert forall|i: int| 0 <= i < body.len() implies chars[at + 1 + i] == body[i] by {
                    assert(text[1 + i] == body[i]);
                }
            }
            assert(chars[at + 1 + body.len()] == '"') by {
                assert(text[1 + body.len() as int] == '"');
            }
            lemma_string_inside(chars, at + 1, inside);
            if inside.len() > 0 {
                assert(inside.take(inside.len() - 1) =~= inside.drop_last());
            }
        },
        Word::Number(digits) => {
            assert forall|i: int| at <= i < end implies number_char(#[trigger] chars[i]) by {
                assert(chars[i] == digits[i - at]);
            }
            lemma_number_end(chars, at, end);
        },
        Word::Mark(mark) => {
            assert(mark_of(mark_char(mark)) == Some(mark));
        },
    }
}

proof fn lemma_line(pre: Seq<char>, words: Seq<Word>, readings: Map<Seq<char>, Reading>)
    requires
        forall|i: int| 0 <= i < words.len() ==> is_word(#[trigger] words[i], readings),
    ensures
        lex_from(pre + line(words), pre.len() as int, readings) == Ok::<_, Fault>(
            word_toks(words, readings),
        ),
    decreases words.len(),
{
    let chars = pre + line(words);
    let at = pre.len() as int;
    if words.len() == 0 {
        assert(word_toks(words, readings) =~= Seq::<Tok>::empty());
    } else {
        let word = words[0];
        let rest = words.skip(1);
        let text = word_text(word);
        let end = at + text.len();
        lemma_word(pre, word, line(rest), readings);
        assert(chars =~= pre + text + seq![' '] + line(rest));
        assert(chars[end] == ' ');
        let behind = pre + text + seq![' '];
        assert forall|i: int| 0 <= i < rest.len() implies is_word(#[trigger] rest[i], readings) by {
            assert(rest[i] == words[i + 1]);
        }
        lemma_line(behind, rest, readings);
        assert(behind + line(rest) =~= chars);
        assert(behind.len() == end + 1);
        assert(lex_from(chars, end, readings) == lex_from(chars, end + 1, readings));
        assert(word_toks(words, readings) =~= seq![word_tok(word, readings)] + word_toks(
            rest,
            readings,
        ));
    }
}

/// Words that are written one behind the other are read as those words, whatever is in a text
/// that stands in quotes.
pub proof fn law_words_are_read_back(words: Seq<Word>, readings: Map<Seq<char>, Reading>)
    requires
        forall|i: int| 0 <= i < words.len() ==> is_word(#[trigger] words[i], readings),
    ensures
        lex_spec(line(words), readings) == Ok::<_, Fault>(word_toks(words, readings)),
{
    lemma_line(Seq::empty(), words, readings);
    assert(Seq::empty() + line(words) =~= line(words));
}

} // verus!
