//! The tokens of a filter.

use crate::float::opt_reading;
use crate::float::reading_of;
use crate::float::FloatReading;
use crate::float::FloatReadings;
use crate::float::Reading;
use crate::query::filter::Fault;
use crate::query::filter::FilterError;
use crate::text::chars_of;
use crate::text::is_digit;
use crate::text::is_white_space;
use crate::text::string_of;
use crate::text::white_space;
use vstd::prelude::*;
use vstd::string::StringExecFns;

verus! {

/// A punctuation mark.
#[derive(Debug, Clone, Copy, PartialEq, Eq, Structural)]
pub enum Mark {
    LParen,
    RParen,
    LBracket,
    RBracket,
    Comma,
}

/// A string as it is written in a filter, with what it reads as when a number,
/// or a number of seconds, is wanted.
#[derive(Debug, PartialEq, Eq)]
pub struct FilterText {
    pub text: String,
    pub number: Option<FloatReading>,
    pub seconds: Option<FloatReading>,
}

/// What a [`FilterText`] holds.
pub struct TextModel {
    pub text: Seq<char>,
    pub number: Option<Reading>,
    pub seconds: Option<Reading>,
}

impl View for FilterText {
    type V = TextModel;

    open spec fn view(&self) -> TextModel {
        TextModel {
            text: self.text@,
            number: opt_reading(self.number),
            seconds: opt_reading(self.seconds),
        }
    }
}

impl Clone for FilterText {
    fn clone(&self) -> (r: Self)
        ensures
            r@ == self@,
    {
        FilterText {
            text: self.text.clone(),
            number: match &self.number {
                Some(n) => Some(n.clone()),
                None => None,
            },
            seconds: match &self.seconds {
                Some(n) => Some(n.clone()),
                None => None,
            },
        }
    }
}

/// A token of a filter.
pub enum Token {
    Ident(String),
    Text(FilterText),
    Number(FloatReading),
    Mark(Mark),
}

/// What a [`Token`] holds.
pub enum Tok {
    Ident(Seq<char>),
    Text(TextModel),
    Number(Reading),
    Mark(Mark),
}

impl View for Token {
    type V = Tok;

    open spec fn view(&self) -> Tok {
        match self {
            Token::Ident(text) => Tok::Ident(text@),
            Token::Text(text) => Tok::Text(text@),
            Token::Number(reading) => Tok::Number(reading@),
            Token::Mark(mark) => Tok::Mark(*mark),
        }
    }
}

impl Clone for Token {
    fn clone(&self) -> (r: Self)
        ensures
            r@ == self@,
    {
        match self {
            Token::Ident(text) => Token::Ident(text.clone()),
            Token::Text(text) => Token::Text(text.clone()),
            Token::Number(reading) => Token::Number(reading.clone()),
            Token::Mark(mark) => Token::Mark(*mark),
        }
    }
}

/// What tokens hold.
pub open spec fn toks(tokens: Seq<Token>) -> Seq<Tok> {
    tokens.map_values(|token: Token| token@)
}

/// What `str`'s `Debug` writes for `text`: the text in double quotes, with
/// escapes.
pub uninterp spec fn debug_text(text: Seq<char>) -> Seq<char>;

/// What `char`'s `Debug` writes for `c`: the character in single quotes, with
/// escapes.
pub uninterp spec fn debug_char(c: char) -> Seq<char>;

/// Calls `<str as Debug>::fmt`. The result is named after the text it is of.
#[verifier::external_body]
pub(crate) fn quoted(text: &str) -> (r: String)
    ensures
        r@ == debug_text(text@),
{
    format!("{:?}", text)
}

/// Calls `<char as Debug>::fmt`. The result is named after the character it is of.
#[verifier::external_body]
fn quoted_char(c: char) -> (r: String)
    ensures
        r@ == debug_char(c),
{
    format!("{:?}", c)
}

pub open spec fn mark_name(mark: Mark) -> Seq<char> {
    match mark {
        Mark::LParen => "LParen"@,
        Mark::RParen => "RParen"@,
        Mark::LBracket => "LBracket"@,
        Mark::RBracket => "RBracket"@,
        Mark::Comma => "Comma"@,
    }
}

/// How a token is named in an error.
pub open spec fn tok_name(tok: Tok) -> Seq<char> {
    match tok {
        Tok::Ident(text) => "Ident("@ + debug_text(text) + ")"@,
        Tok::Text(text) => "String("@ + debug_text(text.text) + ")"@,
        Tok::Number(reading) => "Number("@ + reading.debug + ")"@,
        Tok::Mark(mark) => mark_name(mark),
    }
}

pub fn name_of_mark(mark: Mark) -> (r: String)
    ensures
        r@ == mark_name(mark),
{
    match mark {
        Mark::LParen => "LParen".to_owned(),
        Mark::RParen => "RParen".to_owned(),
        Mark::LBracket => "LBracket".to_owned(),
        Mark::RBracket => "RBracket".to_owned(),
        Mark::Comma => "Comma".to_owned(),
    }
}

pub fn name_of_token(token: &Token) -> (r: String)
    ensures
        r@ == tok_name(token@),
{
    match token {
        Token::Ident(text) => {
            let mut out = "Ident(".to_owned();
            out.append(quoted(text.as_str()).as_str());
            out.append(")");
            out
        },
        Token::Text(text) => {
            let mut out = "String(".to_owned();
            out.append(quoted(text.text.as_str()).as_str());
            out.append(")");
            out
        },
        Token::Number(reading) => {
            let mut out = "Number(".to_owned();
            out.append(reading.debug.as_str());
            out.append(")");
            out
        },
        Token::Mark(mark) => name_of_mark(*mark),
    }
}

pub open spec fn ascii_letter(c: char) -> bool {
    'a' <= c <= 'z' || 'A' <= c <= 'Z'
}

pub open spec fn ident_start(c: char) -> bool {
    ascii_letter(c) || c == '_'
}

pub open spec fn ident_char(c: char) -> bool {
    ident_start(c) || is_digit(c)
}

pub open spec fn number_char(c: char) -> bool {
    is_digit(c) || c == '-' || c == '.'
}

/// Where the characters of a number end that starts at `from`.
pub open spec fn number_end(chars: Seq<char>, from: int) -> int
    decreases chars.len() - from,
{
    if 0 <= from < chars.len() && number_char(chars[from]) {
        number_end(chars, from + 1)
    } else {
        from
    }
}

/// Where the characters of an identifier end that starts at `from`.
pub open spec fn ident_end(chars: Seq<char>, from: int) -> int
    decreases chars.len() - from,
{
    if 0 <= from < chars.len() && ident_char(chars[from]) {
        ident_end(chars, from + 1)
    } else {
        from
    }
}

/// What is in a string whose inside starts at `from`, and where it ends: at the
/// first `quote` that no backslash takes as it is.
pub open spec fn string_inside(
    chars: Seq<char>,
    from: int,
    quote: char,
) -> Result<(Seq<char>, int), Fault>
    decreases chars.len() - from,
{
    if from < 0 || from >= chars.len() {
        Err(Fault::Parse("unterminated string"@))
    } else if chars[from] == quote {
        Ok((Seq::empty(), from + 1))
    } else if chars[from] == '\\' {
        if from + 1 >= chars.len() {
            Err(Fault::Parse("unterminated escape"@))
        } else {
            match string_inside(chars, from + 2, quote) {
                Ok((text, end)) => Ok((seq![chars[from + 1]] + text, end)),
                Err(fault) => Err(fault),
            }
        }
    } else {
        match string_inside(chars, from + 1, quote) {
            Ok((text, end)) => Ok((seq![chars[from]] + text, end)),
            Err(fault) => Err(fault),
        }
    }
}

/// `text` without a final `s`, if it has one.
pub open spec fn without_unit(text: Seq<char>) -> Seq<char> {
    if text.len() > 0 && text.last() == 's' {
        text.drop_last()
    } else {
        text
    }
}

pub open spec fn text_model(text: Seq<char>, readings: Map<Seq<char>, Reading>) -> TextModel {
    TextModel {
        text,
        number: reading_of(readings, text),
        seconds: reading_of(readings, without_unit(text)),
    }
}

pub open spec fn mark_of(c: char) -> Option<Mark> {
    if c == '(' {
        Some(Mark::LParen)
    } else if c == ')' {
        Some(Mark::RParen)
    } else if c == '[' {
        Some(Mark::LBracket)
    } else if c == ']' {
        Some(Mark::RBracket)
    } else if c == ',' {
        Some(Mark::Comma)
    } else {
        None
    }
}

/// The token that starts at `from`, where there is no white space, and where it
/// ends.
pub open spec fn tok_at(
    chars: Seq<char>,
    from: int,
    readings: Map<Seq<char>, Reading>,
) -> Result<(Tok, int), Fault> {
    let c = chars[from];
    match mark_of(c) {
        Some(mark) => Ok((Tok::Mark(mark), from + 1)),
        None => if c == '"' || c == '\'' {
            match string_inside(chars, from + 1, c) {
                Ok((text, end)) => Ok((Tok::Text(text_model(text, readings)), end)),
                Err(fault) => Err(fault),
            }
        } else if c == '-' || is_digit(c) {
            let end = number_end(chars, from);
            let text = chars.subrange(from, end);
            match reading_of(readings, text) {
                Some(reading) => Ok((Tok::Number(reading), end)),
                None => Err(Fault::Parse("invalid number "@ + text)),
            }
        } else if ident_start(c) {
            let end = ident_end(chars, from);
            Ok((Tok::Ident(chars.subrange(from, end)), end))
        } else {
            Err(Fault::Parse("unexpected character "@ + debug_char(c)))
        },
    }
}

/// The tokens of `chars` from `from` on.
pub open spec fn lex_from(
    chars: Seq<char>,
    from: int,
    readings: Map<Seq<char>, Reading>,
) -> Result<Seq<Tok>, Fault>
    decreases chars.len() - from,
{
    if from < 0 || from >= chars.len() {
        Ok(Seq::empty())
    } else if white_space(chars[from]) {
        lex_from(chars, from + 1, readings)
    } else {
        match tok_at(chars, from, readings) {
            Ok((tok, end)) => if from < end <= chars.len() {
                match lex_from(chars, end, readings) {
                    Ok(rest) => Ok(seq![tok] + rest),
                    Err(fault) => Err(fault),
                }
            } else {
                Ok(Seq::empty())
            },
            Err(fault) => Err(fault),
        }
    }
}

/// The tokens of a filter.
pub open spec fn lex_spec(
    chars: Seq<char>,
    readings: Map<Seq<char>, Reading>,
) -> Result<Seq<Tok>, Fault> {
    lex_from(chars, 0, readings)
}

fn read_string(chars: &Vec<char>, from: usize, quote: char) -> (r: Result<
    (String, usize),
    FilterError,
>)
    requires
        from <= chars.len(),
    ensures
        match r {
            Ok((text, end)) => string_inside(chars@, from as int, quote) == Ok::<_, Fault>(
                (text@, end as int),
            ) && from < end <= chars.len(),
            Err(error) => string_inside(chars@, from as int, quote) == Err::<(Seq<char>, int), _>(
                error@,
            ),
        },
{
    let ghost whole = string_inside(chars@, from as int, quote);
    let mut value = String::new();
    let mut i: usize = from;
    assert(whole matches Ok((text, end)) ==> whole == Ok::<_, Fault>(
        (value@ + text, end),
    )) by {
        assert(whole matches Ok((text, end)) ==> value@ + text =~= text);
    }
    while i < chars.len()
        invariant
            from <= i <= chars.len(),
            whole == string_inside(chars@, from as int, quote),
            match string_inside(chars@, i as int, quote) {
                Ok((text, end)) => whole == Ok::<_, Fault>((value@ + text, end)),
                Err(fault) => whole == Err::<(Seq<char>, int), _>(fault),
            },
        decreases chars.len() - i,
    {
        let c = chars[i];
        let ghost before = value@;
        if c == quote {
            assert(before + Seq::<char>::empty() =~= before);
            return Ok((value, i + 1));
        }
        if c == '\\' {
            if i + 1 >= chars.len() {
                return Err(FilterError::Parse("unterminated escape".to_owned()));
            }
            value.push(chars[i + 1]);
            assert(match string_inside(chars@, i + 2, quote) {
                Ok((text, end)) => before + (seq![chars@[i + 1]] + text) =~= value@ + text,
                Err(_) => true,
            });
            i += 2;
        } else {
            value.push(c);
            assert(match string_inside(chars@, i + 1, quote) {
                Ok((text, end)) => before + (seq![c] + text) =~= value@ + text,
                Err(_) => true,
            });
            i += 1;
        }
    }
    Err(FilterError::Parse("unterminated string".to_owned()))
}

fn end_of_number(chars: &Vec<char>, from: usize) -> (end: usize)
    requires
        from <= chars.len(),
    ensures
        end == number_end(chars@, from as int),
        from <= end <= chars.len(),
{
    let mut i: usize = from;
    while i < chars.len() && (('0' <= chars[i] && chars[i] <= '9') || chars[i] == '-' || chars[i]
        == '.')
        invariant
            from <= i <= chars.len(),
            number_end(chars@, from as int) == number_end(chars@, i as int),
        decreases chars.len() - i,
    {
        i += 1;
    }
    i
}

fn is_ident_start(c: char) -> (r: bool)
    ensures
        r == ident_start(c),
{
    ('a' <= c && c <= 'z') || ('A' <= c && c <= 'Z') || c == '_'
}

fn end_of_ident(chars: &Vec<char>, from: usize) -> (end: usize)
    requires
        from <= chars.len(),
    ensures
        end == ident_end(chars@, from as int),
        from <= end <= chars.len(),
{
    let mut i: usize = from;
    while i < chars.len() && (is_ident_start(chars[i]) || ('0' <= chars[i] && chars[i] <= '9'))
        invariant
            from <= i <= chars.len(),
            ident_end(chars@, from as int) == ident_end(chars@, i as int),
        decreases chars.len() - i,
    {
        i += 1;
    }
    i
}

/// `text` without a final `s`, if it has one.
fn unit_stripped(text: &str) -> (r: String)
    ensures
        r@ == without_unit(text@),
{
    let chars = chars_of(text);
    if chars.len() > 0 && chars[chars.len() - 1] == 's' {
        let r = string_of(&chars, 0, chars.len() - 1);
        assert(r@ =~= text@.drop_last());
        r
    } else {
        let r = string_of(&chars, 0, chars.len());
        assert(r@ =~= text@);
        r
    }
}

fn mark_for(c: char) -> (r: Option<Mark>)
    ensures
        r == mark_of(c),
{
    if c == '(' {
        Some(Mark::LParen)
    } else if c == ')' {
        Some(Mark::RParen)
    } else if c == '[' {
        Some(Mark::LBracket)
    } else if c == ']' {
        Some(Mark::RBracket)
    } else if c == ',' {
        Some(Mark::Comma)
    } else {
        None
    }
}

fn read_token(chars: &Vec<char>, from: usize, readings: &FloatReadings) -> (r: Result<
    (Token, usize),
    FilterError,
>)
    requires
        from < chars.len(),
    ensures
        match r {
            Ok((token, end)) => tok_at(chars@, from as int, readings@) == Ok::<_, Fault>(
                (token@, end as int),
            ) && from < end <= chars.len(),
            Err(error) => tok_at(chars@, from as int, readings@) == Err::<(Tok, int), _>(error@),
        },
{
    let c = chars[from];
    if let Some(mark) = mark_for(c) {
        return Ok((Token::Mark(mark), from + 1));
    }
    if c == '"' || c == '\'' {
        match read_string(chars, from + 1, c) {
            Ok((text, end)) => {
                let stripped = unit_stripped(text.as_str());
                let number = readings.get(text.as_str());
                let seconds = readings.get(stripped.as_str());
                Ok((Token::Text(FilterText { text, number, seconds }), end))
            },
            Err(error) => Err(error),
        }
    } else if c == '-' || ('0' <= c && c <= '9') {
        let end = end_of_number(chars, from);
        assert(number_end(chars@, from as int) == number_end(chars@, from + 1));
        proof {
            lemma_ends_forward(chars@, from + 1);
        }
        let text = string_of(chars, from, end);
        match readings.get(text.as_str()) {
            Some(reading) => Ok((Token::Number(reading), end)),
            None => {
                let mut message = "invalid number ".to_owned();
                message.append(text.as_str());
                Err(FilterError::Parse(message))
            },
        }
    } else if is_ident_start(c) {
        let end = end_of_ident(chars, from);
        assert(ident_end(chars@, from as int) == ident_end(chars@, from + 1));
        proof {
            lemma_ends_forward(chars@, from + 1);
        }
        Ok((Token::Ident(string_of(chars, from, end)), end))
    } else {
        let mut message = "unexpected character ".to_owned();
        message.append(quoted_char(c).as_str());
        Err(FilterError::Parse(message))
    }
}

proof fn lemma_ends_forward(chars: Seq<char>, from: int)
    ensures
        number_end(chars, from) >= from,
        ident_end(chars, from) >= from,
    decreases chars.len() - from,
{
    if 0 <= from < chars.len() {
        lemma_ends_forward(chars, from + 1);
    }
}

/// The tokens of a filter.
pub fn lex(input: &str, readings: &FloatReadings) -> (r: Result<Vec<Token>, FilterError>)
    ensures
        match r {
            Ok(tokens) => lex_spec(input@, readings@) == Ok::<_, Fault>(toks(tokens@)),
            Err(error) => lex_spec(input@, readings@) == Err::<Seq<Tok>, _>(error@),
        },
{
    let chars = chars_of(input);
    let ghost whole = lex_spec(input@, readings@);
    let mut tokens: Vec<Token> = Vec::new();
    let mut i: usize = 0;
    assert(toks(tokens@) =~= Seq::<Tok>::empty());
    assert(whole matches Ok(rest) ==> toks(tokens@) + rest =~= rest);
    while i < chars.len()
        invariant
            i <= chars.len(),
            chars@ == input@,
            whole == lex_spec(input@, readings@),
            match lex_from(chars@, i as int, readings@) {
                Ok(rest) => whole == Ok::<_, Fault>(toks(tokens@) + rest),
                Err(fault) => whole == Err::<Seq<Tok>, _>(fault),
            },
        decreases chars.len() - i,
    {
        if is_white_space(chars[i]) {
            i += 1;
        } else {
            let ghost before = toks(tokens@);
            match read_token(&chars, i, readings) {
                Ok((token, end)) => {
                    let ghost tok = token@;
                    tokens.push(token);
                    assert(toks(tokens@) =~= before.push(tok));
                    assert(match lex_from(chars@, end as int, readings@) {
                        Ok(rest) => before + (seq![tok] + rest) =~= toks(tokens@) + rest,
                        Err(_) => true,
                    });
                    i = end;
                },
                Err(error) => {
                    return Err(error);
                },
            }
        }
    }
    assert(toks(tokens@) + Seq::<Tok>::empty() =~= toks(tokens@));
    Ok(tokens)
}

/// Every text of `input` that its tokens are read from as numbers: the runs of
/// number characters that stand where a number may, and the strings, with and
/// without a final `s`. An input that has no tokens up to some place is looked
/// through up to that place.
pub fn filter_number_texts(input: &str) -> (texts: Vec<String>)
    ensures
        number_texts_from(input@, 0) == crate::text::texts(texts@),
{
    let chars = chars_of(input);
    let mut texts: Vec<String> = Vec::new();
    let mut i: usize = 0;
    let ghost whole = number_texts_from(input@, 0);
    assert(crate::text::texts(texts@) + whole =~= whole);
    while i < chars.len()
        invariant
            i <= chars.len(),
            chars@ == input@,
            whole == number_texts_from(input@, 0),
            whole == crate::text::texts(texts@) + number_texts_from(chars@, i as int),
        decreases chars.len() - i,
    {
        let c = chars[i];
        let ghost before = crate::text::texts(texts@);
        if c == '"' || c == '\'' {
            match read_string(&chars, i + 1, c) {
                Ok((text, end)) => {
                    let stripped = unit_stripped(text.as_str());
                    let ghost a = text@;
                    let ghost b = stripped@;
                    let ghost rest = number_texts_from(chars@, end as int);
                    texts.push(text);
                    assert(crate::text::texts(texts@) =~= before.push(a));
                    texts.push(stripped);
                    assert(crate::text::texts(texts@) =~= before.push(a).push(b));
                    assert(before + (seq![a, b] + rest) =~= before.push(a).push(b) + rest);
                    i = end;
                },
                Err(_) => {
                    assert(before + Seq::<Seq<char>>::empty() =~= before);
                    return texts;
                },
            }
        } else if c == '-' || ('0' <= c && c <= '9') {
            let end = end_of_number(&chars, i);
            assert(number_end(chars@, i as int) == number_end(chars@, i + 1));
            proof {
                lemma_ends_forward(chars@, i + 1);
            }
            let text = string_of(&chars, i, end);
            let ghost a = text@;
            let ghost rest = number_texts_from(chars@, end as int);
            texts.push(text);
            assert(crate::text::texts(texts@) =~= before.push(a));
            assert(before + (seq![a] + rest) =~= before.push(a) + rest);
            i = end;
        } else if is_ident_start(c) {
            let end = end_of_ident(&chars, i);
            assert(ident_end(chars@, i as int) == ident_end(chars@, i + 1));
            proof {
                lemma_ends_forward(chars@, i + 1);
            }
            i = end;
        } else {
            i += 1;
        }
    }
    assert(crate::text::texts(texts@) + Seq::<Seq<char>>::empty() =~= crate::text::texts(texts@));
    texts
}

/// The texts that the tokens from `from` on are read from as numbers.
pub open spec fn number_texts_from(chars: Seq<char>, from: int) -> Seq<Seq<char>>
    decreases chars.len() - from,
{
    if from < 0 || from >= chars.len() {
        Seq::empty()
    } else {
        let c = chars[from];
        if c == '"' || c == '\'' {
            match string_inside(chars, from + 1, c) {
                Ok((text, end)) => if from < end <= chars.len() {
                    seq![text, without_unit(text)] + number_texts_from(chars, end)
                } else {
                    Seq::empty()
                },
                Err(_) => Seq::empty(),
            }
        } else if c == '-' || is_digit(c) {
            let end = number_end(chars, from);
            if from < end <= chars.len() {
                seq![chars.subrange(from, end)] + number_texts_from(chars, end)
            } else {
                Seq::empty()
            }
        } else if ident_start(c) {
            let end = ident_end(chars, from);
            if from < end <= chars.len() {
                number_texts_from(chars, end)
            } else {
                Seq::empty()
            }
        } else {
            number_texts_from(chars, from + 1)
        }
    }
}

} // verus!
