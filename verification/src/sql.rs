//! Pieces of SQL text.

use crate::text::chars_of;
use crate::text::int_text;
use crate::text::integer_text;
use crate::text::join;
use crate::text::joined;
use crate::text::no_texts;
use crate::text::push_text;
use crate::text::starts_with;
use crate::text::texts;
use vstd::prelude::*;
use vstd::string::StringExecFns;

verus! {

/// `text` with each single quote written twice.
pub open spec fn doubled_quotes(text: Seq<char>) -> Seq<char>
    decreases text.len(),
{
    if text.len() == 0 {
        text
    } else {
        let rest = doubled_quotes(text.drop_last());
        if text.last() == '\'' {
            rest.push('\'').push('\'')
        } else {
            rest.push(text.last())
        }
    }
}

/// The SQL string literal that stands for `text`.
pub open spec fn literal(text: Seq<char>) -> Seq<char> {
    seq!['\''] + doubled_quotes(text) + seq!['\'']
}

/// The SQL string literals of `values`.
pub open spec fn literals(values: Seq<Seq<char>>) -> Seq<Seq<char>> {
    values.map_values(|value: Seq<char>| literal(value))
}

/// The SQL string literals of `values`, with a comma and a space between them.
pub open spec fn literal_list(values: Seq<Seq<char>>) -> Seq<char> {
    join(literals(values), ", "@)
}

/// What the body of a string literal stands for, and where it ends: a quote
/// written twice is one quote, and the first that is not ends the literal.
pub open spec fn read_literal_body(text: Seq<char>, from: int) -> Option<(Seq<char>, int)>
    decreases text.len() - from,
{
    if from < 0 || from >= text.len() {
        None
    } else if text[from] == '\'' {
        if from + 1 < text.len() && text[from + 1] == '\'' {
            match read_literal_body(text, from + 2) {
                Some((body, end)) => Some((seq!['\''] + body, end)),
                None => None,
            }
        } else {
            Some((Seq::empty(), from + 1))
        }
    } else {
        match read_literal_body(text, from + 1) {
            Some((body, end)) => Some((seq![text[from]] + body, end)),
            None => None,
        }
    }
}

/// `text` with a backslash before each backslash, percent sign and underscore.
pub open spec fn like_escaped(text: Seq<char>) -> Seq<char>
    decreases text.len(),
{
    if text.len() == 0 {
        text
    } else {
        let rest = like_escaped(text.drop_last());
        let c = text.last();
        if c == '\\' || c == '%' || c == '_' {
            rest.push('\\').push(c)
        } else {
            rest.push(c)
        }
    }
}

/// The SQL string literal that stands for `value`.
pub fn sql_string_literal(value: &str) -> (r: String)
    ensures
        r@ == literal(value@),
{
    let chars = chars_of(value);
    let mut out = String::new();
    out.push('\'');
    let mut i: usize = 0;
    assert(out@ =~= seq!['\''] + doubled_quotes(chars@.take(0)));
    while i < chars.len()
        invariant
            i <= chars.len(),
            out@ == seq!['\''] + doubled_quotes(chars@.take(i as int)),
        decreases chars.len() - i,
    {
        let c = chars[i];
        let ghost now = chars@.take(i + 1);
        assert(now.drop_last() =~= chars@.take(i as int));
        if c == '\'' {
            out.push('\'');
        }
        out.push(c);
        i += 1;
        assert(out@ =~= seq!['\''] + doubled_quotes(now));
    }
    assert(chars@.take(chars@.len() as int) =~= chars@);
    out.push('\'');
    assert(out@ =~= literal(value@));
    out
}

/// The SQL string literals of `values`, with a comma and a space between them.
pub fn sql_string_list(values: &Vec<String>) -> (r: String)
    ensures
        r@ == literal_list(texts(values@)),
{
    let mut parts: Vec<String> = Vec::new();
    let mut i: usize = 0;
    while i < values.len()
        invariant
            i <= values.len(),
            texts(parts@) == literals(texts(values@)).take(i as int),
        decreases values.len() - i,
    {
        let ghost before = parts@;
        parts.push(sql_string_literal(values[i].as_str()));
        i += 1;
        assert(texts(parts@) =~= texts(before).push(literal(values@[i - 1]@)));
        assert(literals(texts(values@)).take(i as int) =~= literals(texts(values@)).take(
            i - 1,
        ).push(literal(values@[i - 1]@)));
    }
    assert(literals(texts(values@)).take(values@.len() as int) =~= literals(texts(values@)));
    joined(&parts, ", ")
}

/// `value` as the pattern of an SQL `LIKE` that matches it and nothing else.
pub fn escape_like_pattern(value: &str) -> (r: String)
    ensures
        r@ == like_escaped(value@),
{
    let chars = chars_of(value);
    let mut out = String::new();
    let mut i: usize = 0;
    assert(chars@.take(0) =~= Seq::<char>::empty());
    while i < chars.len()
        invariant
            i <= chars.len(),
            out@ == like_escaped(chars@.take(i as int)),
        decreases chars.len() - i,
    {
        let c = chars[i];
        let ghost now = chars@.take(i + 1);
        assert(now.drop_last() =~= chars@.take(i as int));
        if c == '\\' || c == '%' || c == '_' {
            out.push('\\');
        }
        out.push(c);
        i += 1;
    }
    assert(chars@.take(chars@.len() as int) =~= chars@);
    out
}

proof fn lemma_doubled_add(a: Seq<char>, b: Seq<char>)
    ensures
        doubled_quotes(a + b) == doubled_quotes(a) + doubled_quotes(b),
    decreases b.len(),
{
    if b.len() == 0 {
        assert(a + b =~= a);
        assert(doubled_quotes(a) + doubled_quotes(b) =~= doubled_quotes(a));
    } else {
        lemma_doubled_add(a, b.drop_last());
        assert((a + b).drop_last() =~= a + b.drop_last());
        assert(doubled_quotes(a + b) =~= doubled_quotes(a) + doubled_quotes(b));
    }
}

proof fn lemma_body_reads_back(before: Seq<char>, text: Seq<char>, after: Seq<char>)
    requires
        after.len() == 0 || after[0] != '\'',
    ensures
        read_literal_body(
            before + doubled_quotes(text) + seq!['\''] + after,
            before.len() as int,
        ) == Some((text, (before.len() + doubled_quotes(text).len() + 1) as int)),
    decreases text.len(),
{
    let all = before + doubled_quotes(text) + seq!['\''] + after;
    let from = before.len() as int;
    if text.len() == 0 {
        assert(all[from] == '\'');
        if from + 1 < all.len() {
            assert(all[from + 1] == after[0]);
        }
        assert(text =~= Seq::<char>::empty());
    } else {
        let first = seq![text[0]];
        let rest = text.drop_first();
        assert(first + rest =~= text);
        lemma_doubled_add(first, rest);
        assert(first.drop_last() =~= Seq::<char>::empty());
        let head = doubled_quotes(first);
        assert(doubled_quotes(Seq::<char>::empty()) =~= Seq::<char>::empty());
        if text[0] == '\'' {
            assert(head =~= seq!['\'', '\'']);
        } else {
            assert(head =~= first);
        }
        lemma_body_reads_back(before + head, rest, after);
        assert(all =~= (before + head) + doubled_quotes(rest) + seq!['\''] + after);
        assert(all[from] == head[0]);
        if text[0] == '\'' {
            assert(all[from + 1] == head[1]);
        }
        assert(first + rest =~= text);
    }
}

/// A literal is read as the text it was written for, to its end and no further,
/// wherever it stands before something other than a quote.
pub proof fn law_literal_reads_back(text: Seq<char>, after: Seq<char>)
    requires
        after.len() == 0 || after[0] != '\'',
    ensures
        read_literal_body(literal(text) + after, 1) == Some((text, literal(text).len() as int)),
{
    lemma_body_reads_back(seq!['\''], text, after);
    assert(literal(text) + after =~= seq!['\''] + doubled_quotes(text) + seq!['\''] + after);
}

/// The one text that a `LIKE` pattern with backslashes as escapes matches, if there is
/// only one: a pattern with a wildcard has none, nor has one that ends in an escape.
pub open spec fn only_match(pattern: Seq<char>) -> Option<Seq<char>>
    decreases pattern.len(),
{
    if pattern.len() == 0 {
        Some(pattern)
    } else if pattern[0] == '%' || pattern[0] == '_' {
        None
    } else if pattern[0] == '\\' {
        if pattern.len() == 1 {
            None
        } else {
            match only_match(pattern.skip(2)) {
                Some(rest) => Some(seq![pattern[1]] + rest),
                None => None,
            }
        }
    } else {
        match only_match(pattern.skip(1)) {
            Some(rest) => Some(seq![pattern[0]] + rest),
            None => None,
        }
    }
}

proof fn lemma_like_escaped_add(a: Seq<char>, b: Seq<char>)
    ensures
        like_escaped(a + b) == like_escaped(a) + like_escaped(b),
    decreases b.len(),
{
    if b.len() == 0 {
        assert(a + b =~= a);
        assert(like_escaped(a) + like_escaped(b) =~= like_escaped(a));
    } else {
        lemma_like_escaped_add(a, b.drop_last());
        assert((a + b).drop_last() =~= a + b.drop_last());
        assert(like_escaped(a + b) =~= like_escaped(a) + like_escaped(b));
    }
}

/// An escaped text is a pattern that matches that text and no other.
pub proof fn law_escaped_pattern_matches_its_text(text: Seq<char>)
    ensures
        only_match(like_escaped(text)) == Some(text),
    decreases text.len(),
{
    if text.len() > 0 {
        let first = seq![text[0]];
        let rest = text.drop_first();
        assert(first + rest =~= text);
        lemma_like_escaped_add(first, rest);
        assert(first.drop_last() =~= Seq::<char>::empty());
        reveal_with_fuel(like_escaped, 2);
        law_escaped_pattern_matches_its_text(rest);
        let all = like_escaped(text);
        let head = like_escaped(first);
        assert(all =~= head + like_escaped(rest));
        if text[0] == '\\' || text[0] == '%' || text[0] == '_' {
            assert(head =~= seq!['\\', text[0]]);
            assert(all[0] == '\\' && all[1] == text[0]);
            assert(all.skip(2) =~= like_escaped(rest));
        } else {
            assert(head =~= first);
            assert(all[0] == text[0]);
            assert(all.skip(1) =~= like_escaped(rest));
        }
    }
}

/// Whether an SQL `LIKE` pattern matches a text: a percent sign stands for any text, an
/// underscore for one character, and what follows a backslash for itself.
pub open spec fn like_matches(pattern: Seq<char>, text: Seq<char>) -> bool
    decreases pattern.len(), 0nat,
{
    if pattern.len() == 0 {
        text.len() == 0
    } else if pattern[0] == '%' {
        like_matches_from(pattern.skip(1), text, 0)
    } else if pattern[0] == '_' {
        text.len() > 0 && like_matches(pattern.skip(1), text.skip(1))
    } else if pattern[0] == '\\' {
        &&& pattern.len() > 1
        &&& text.len() > 0
        &&& text[0] == pattern[1]
        &&& like_matches(pattern.skip(2), text.skip(1))
    } else {
        text.len() > 0 && text[0] == pattern[0] && like_matches(pattern.skip(1), text.skip(1))
    }
}

/// Whether a pattern matches what is left of a text from somewhere on.
pub open spec fn like_matches_from(pattern: Seq<char>, text: Seq<char>, from: nat) -> bool
    decreases pattern.len(), text.len() - from + 1,
{
    from <= text.len() && (like_matches(pattern, text.skip(from as int)) || like_matches_from(
        pattern,
        text,
        from + 1,
    ))
}

proof fn lemma_matches_from(pattern: Seq<char>, text: Seq<char>, from: nat)
    ensures
        like_matches_from(pattern, text, from) <==> exists|k: int|
            from <= k <= text.len() && like_matches(pattern, #[trigger] text.skip(k)),
    decreases text.len() - from + 1,
{
    if from <= text.len() {
        lemma_matches_from(pattern, text, from + 1);
        if like_matches(pattern, text.skip(from as int)) {
            assert(like_matches(pattern, text.skip(from as int)));
        } else if like_matches_from(pattern, text, from) {
            let k = choose|k: int|
                from + 1 <= k <= text.len() && like_matches(pattern, #[trigger] text.skip(k));
            assert(like_matches(pattern, text.skip(k)));
        } else {
            assert forall|k: int| from <= k <= text.len() implies !like_matches(
                pattern,
                #[trigger] text.skip(k),
            ) by {
                if k > from {
                    assert(from + 1 <= k);
                }
            }
        }
    }
}

/// Whether a text holds another.
pub open spec fn holds_text(text: Seq<char>, part: Seq<char>) -> bool {
    exists|k: int| 0 <= k <= text.len() && #[trigger] starts_with(text.skip(k), part)
}

proof fn lemma_pattern_of_start(start: Seq<char>, text: Seq<char>)
    ensures
        like_matches(like_escaped(start).push('%'), text) <==> starts_with(text, start),
    decreases start.len(),
{
    let pattern = like_escaped(start).push('%');
    if start.len() == 0 {
        assert(pattern =~= seq!['%']);
        assert(pattern.skip(1) =~= Seq::empty());
        assert(text.skip(text.len() as int) =~= Seq::empty());
        assert(like_matches(pattern.skip(1), text.skip(text.len() as int)));
        lemma_matches_from(pattern.skip(1), text, 0);
        assert(text.take(0) =~= start);
    } else {
        let first = seq![start[0]];
        let rest = start.drop_first();
        assert(first + rest =~= start);
        lemma_like_escaped_add(first, rest);
        assert(first.drop_last() =~= Seq::<char>::empty());
        reveal_with_fuel(like_escaped, 2);
        let head = like_escaped(first);
        let tail = like_escaped(rest).push('%');
        assert(pattern =~= head + tail);
        lemma_pattern_of_start(rest, text.skip(1));
        if start[0] == '\\' || start[0] == '%' || start[0] == '_' {
            assert(head =~= seq!['\\', start[0]]);
            assert(pattern.skip(2) =~= tail);
            assert(pattern[0] == '\\' && pattern[1] == start[0]);
        } else {
            assert(head =~= first);
            assert(pattern.skip(1) =~= tail);
            assert(pattern[0] == start[0]);
        }
        if starts_with(text, start) {
            assert(text.take(start.len() as int)[0] == start[0]);
            assert(text.skip(1).take(rest.len() as int) =~= text.take(
                start.len() as int,
            ).drop_first());
        }
        if text.len() > 0 && text[0] == start[0] && starts_with(text.skip(1), rest) {
            assert forall|i: int| 0 <= i < start.len() implies text.take(start.len() as int)[i]
                == start[i] by {
                if i > 0 {
                    assert(text.skip(1).take(rest.len() as int)[i - 1] == rest[i - 1]);
                }
            }
            assert(text.take(start.len() as int) =~= start);
        }
    }
}

/// An escaped text between percent signs is a pattern that matches the texts that hold it,
/// and no others.
pub proof fn law_pattern_matches_what_holds_its_text(part: Seq<char>, text: Seq<char>)
    ensures
        like_matches(seq!['%'] + like_escaped(part) + seq!['%'], text) <==> holds_text(text, part),
{
    let pattern = seq!['%'] + like_escaped(part) + seq!['%'];
    let inner = like_escaped(part).push('%');
    assert(pattern.skip(1) =~= inner);
    assert forall|k: int| 0 <= k <= text.len() implies (like_matches(
        inner,
        #[trigger] text.skip(k),
    ) <==> starts_with(text.skip(k), part)) by {
        lemma_pattern_of_start(part, text.skip(k));
    }
    lemma_matches_from(pattern.skip(1), text, 0);
    if like_matches(pattern, text) {
        let k = choose|k: int|
            0 <= k <= text.len() && like_matches(pattern.skip(1), #[trigger] text.skip(k));
        assert(starts_with(text.skip(k), part));
    }
    if holds_text(text, part) {
        let k = choose|k: int| 0 <= k <= text.len() && #[trigger] starts_with(text.skip(k), part);
        assert(like_matches(pattern.skip(1), text.skip(k)));
    }
}

/// Numbers as text.
pub open spec fn integer_texts(values: Seq<i64>) -> Seq<Seq<char>> {
    values.map_values(|n: i64| int_text(n as int))
}

/// Numbers as text, with the separator between them.
pub open spec fn integer_list(values: Seq<i64>, separator: Seq<char>) -> Seq<char> {
    join(integer_texts(values), separator)
}

/// Numbers as text, with the separator between them.
pub fn joined_integers(values: &Vec<i64>, separator: &str) -> (r: String)
    ensures
        r@ == integer_list(values@, separator@),
{
    let ghost wanted = integer_texts(values@);
    let mut parts = no_texts();
    let mut i: usize = 0;
    while i < values.len()
        invariant
            i <= values.len(),
            wanted == integer_texts(values@),
            texts(parts@) == wanted.take(i as int),
        decreases values.len() - i,
    {
        push_text(&mut parts, integer_text(values[i]));
        i += 1;
        assert(wanted.take(i as int) =~= wanted.take(i - 1).push(wanted[i - 1]));
    }
    assert(wanted.take(i as int) =~= wanted);
    joined(&parts, separator)
}

} // verus!
