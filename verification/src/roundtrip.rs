//! Reading back what is displayed: the text of a policy type parses to the
//! same policy type.
use vstd::prelude::*;

use crate::parser::{
    has_field_named, ident_char, ident_end, keyword, lex, lex_one, number_end, number_lit, p_bool_conflict, p_default_bool,
    p_default_num, p_default_str, p_enum_conflict, p_enum_values, p_field, p_fields, p_name_rest, p_number_conflict,
    p_policy_type, p_string_conflict, parse_spec, pos_at, skip_ws, string_lit, tokenize_spec, Toks, TokenV,
};
use crate::field::{conflict_suffix, field_name, field_text, quoted_list, string_default_text, FieldV};
use crate::number::number_display;
use crate::on_conflict::OnConflict;
use crate::policy_type::{fields_text, policy_type_text, trim_end, trimmed, PolicyTypeV};
use crate::text::{ascii_digit, debug_quoted, escape_plain, is_alphabetic, is_white_space};

verus! {

// ------------------------------------------------------------------ tokens as written

/// The characters a token is written with.
pub open spec fn tok_chars(t: TokenV) -> Seq<char> {
    match t {
        TokenV::Type => seq!['t', 'y', 'p', 'e'],
        TokenV::Bool => seq!['b', 'o', 'o', 'l'],
        TokenV::String => seq!['s', 't', 'r', 'i', 'n', 'g'],
        TokenV::Number => seq!['n', 'u', 'm', 'b', 'e', 'r'],
        TokenV::True => seq!['t', 'r', 'u', 'e'],
        TokenV::False => seq!['f', 'a', 'l', 's', 'e'],
        TokenV::Identifier(w) => w,
        TokenV::StringLiteral(v) => seq!['"'] + escape_plain(v) + seq!['"'],
        TokenV::NumberLiteral(x) => x,
        TokenV::LeftBrace => seq!['{'],
        TokenV::RightBrace => seq!['}'],
        TokenV::LeftBracket => seq!['['],
        TokenV::RightBracket => seq![']'],
        TokenV::Colon => seq![':'],
        TokenV::Comma => seq![','],
        TokenV::Equals => seq!['='],
        TokenV::At => seq!['@'],
        TokenV::DoubleColon => seq![':', ':'],
        TokenV::Agreement => seq!['a', 'g', 'r', 'e', 'e', 'm', 'e', 'n', 't'],
        TokenV::Sticky => seq!['s', 't', 'i', 'c', 'k', 'y'],
        TokenV::Wins => seq!['w', 'i', 'n', 's'],
        TokenV::Last => seq!['l', 'a', 's', 't'],
        TokenV::Highest => seq!['h', 'i', 'g', 'h', 'e', 's', 't'],
        TokenV::Largest => seq!['l', 'a', 'r', 'g', 'e', 's', 't'],
    }
}

/// Whether a token is a word: a keyword or an identifier.
pub open spec fn is_word(t: TokenV) -> bool {
    match t {
        TokenV::Type | TokenV::Bool | TokenV::String | TokenV::Number | TokenV::True | TokenV::False
        | TokenV::Identifier(_) | TokenV::Agreement | TokenV::Sticky | TokenV::Wins | TokenV::Last
        | TokenV::Highest | TokenV::Largest => true,
        _ => false,
    }
}

/// Whether `w` is an identifier the lexer reads back as itself: it starts
/// with a letter or `_` that is not white space, goes on with letters,
/// digits and `_`, and is no keyword.
pub open spec fn ident_ok(w: Seq<char>) -> bool {
    &&& w.len() > 0
    &&& is_alphabetic(w[0]) || w[0] == '_'
    &&& !is_white_space(w[0])
    &&& forall|i: int| 0 <= i < w.len() ==> ident_char(#[trigger] w[i])
    &&& keyword(w) == TokenV::Identifier(w)
}

/// Whether `x` is a number literal the lexer reads back as itself: an
/// optional minus sign, then digits with at most one dot, at least one digit.
pub open spec fn num_ok(x: Seq<char>) -> bool {
    let k: int = if x.len() > 0 && x[0] == '-' {
        1
    } else {
        0
    };
    &&& k < x.len()
    &&& x[0] == '-' || ascii_digit(x[0])
    &&& forall|i: int| k <= i < x.len() ==> ascii_digit(#[trigger] x[i]) || x[i] == '.'
    &&& forall|i: int, j: int| k <= i < j < x.len() && #[trigger] x[i] == '.' ==> #[trigger] x[j] != '.'
    &&& exists|i: int| k <= i < x.len() && ascii_digit(#[trigger] x[i])
}

/// Whether a token is written with characters the lexer reads back as it.
pub open spec fn tok_ok(t: TokenV) -> bool {
    match t {
        TokenV::Identifier(w) => ident_ok(w),
        TokenV::NumberLiteral(x) => num_ok(x),
        _ => true,
    }
}

/// Whether the character `c` may follow the token `t` without joining it.
pub open spec fn may_follow(t: TokenV, c: char) -> bool {
    if is_word(t) {
        !ident_char(c)
    } else {
        match t {
            TokenV::NumberLiteral(_) => !ascii_digit(c) && c != '.',
            TokenV::Colon => c != ':',
            _ => true,
        }
    }
}

// ------------------------------------------------------------------ a text of tokens

/// A token and the white space written before it.
pub type Item = (Seq<char>, TokenV);

/// The text of an item.
pub open spec fn item_chars(it: Item) -> Seq<char> {
    it.0 + tok_chars(it.1)
}

/// The text of items written one after the other.
pub open spec fn render(items: Seq<Item>) -> Seq<char>
    decreases items.len(),
{
    if items.len() == 0 {
        Seq::empty()
    } else {
        render(items.drop_last()) + item_chars(items.last())
    }
}

/// The tokens of items.
pub open spec fn kinds(items: Seq<Item>) -> Seq<TokenV> {
    Seq::new(items.len(), |i: int| items[i].1)
}

/// Whether items are written so that the lexer reads their tokens back:
/// white space only before each token, each token readable, and the first
/// character of each item free to follow the token before it.
pub open spec fn items_ok(items: Seq<Item>) -> bool {
    &&& forall|i: int| 0 <= i < items.len() ==> tok_ok(#[trigger] items[i].1)
    &&& forall|i: int, j: int| 0 <= i < items.len() && 0 <= j < items[i].0.len() ==> is_white_space(
        #[trigger] items[i].0[j],
    )
    &&& forall|i: int, j: int|
        0 <= i && j == i + 1 && j < items.len() ==> may_follow(#[trigger] items[i].1, item_chars(#[trigger] items[j])[0])
}

// ------------------------------------------------------------------ reading a token back

proof fn lemma_skip_sep(s: Seq<char>, a: int, b: int)
    requires
        0 <= a <= b <= s.len(),
        forall|i: int| a <= i < b ==> is_white_space(#[trigger] s[i]),
        b < s.len() ==> !is_white_space(s[b]),
    ensures
        skip_ws(s, a) == b,
    decreases b - a,
{
    if a < b {
        lemma_skip_sep(s, a + 1, b);
    }
}

proof fn lemma_ident_end(s: Seq<char>, a: int, b: int)
    requires
        0 <= a <= b <= s.len(),
        forall|i: int| a <= i < b ==> ident_char(#[trigger] s[i]),
        b < s.len() ==> !ident_char(s[b]),
    ensures
        ident_end(s, a) == b,
    decreases b - a,
{
    if a < b {
        lemma_ident_end(s, a + 1, b);
    }
}

/// Escaping a string is escaping its first character, then the rest.
proof fn lemma_escape_front(v: Seq<char>)
    requires
        v.len() > 0,
    ensures
        escape_plain(v) == (if v[0] == '"' || v[0] == '\\' {
            seq!['\\', v[0]]
        } else {
            seq![v[0]]
        }) + escape_plain(v.skip(1)),
    decreases v.len(),
{
    if v.len() == 1 {
        assert(v.drop_last() =~= Seq::<char>::empty());
        assert(v.skip(1) =~= Seq::<char>::empty());
        assert(escape_plain(Seq::<char>::empty()) == Seq::<char>::empty());
        if v[0] == '"' || v[0] == '\\' {
            assert(escape_plain(v) =~= seq!['\\', v[0]]);
        } else {
            assert(escape_plain(v) =~= seq![v[0]]);
        }
    } else {
        lemma_escape_front(v.drop_last());
        assert(v.drop_last().skip(1) =~= v.skip(1).drop_last());
        assert(v.skip(1).last() == v.last());
        assert(v.drop_last()[0] == v[0]);
    }
}

proof fn lemma_string_lit(s: Seq<char>, a: int, v: Seq<char>, acc: Seq<char>, start: int)
    requires
        0 <= a,
        a + escape_plain(v).len() < s.len(),
        s.subrange(a, a + escape_plain(v).len()) == escape_plain(v),
        s[a + escape_plain(v).len()] == '"',
    ensures
        string_lit(s, a, false, acc, start) == Ok::<(Seq<char>, int), crate::parser::ParseErrorV>(
            (acc + v, a + escape_plain(v).len() + 1),
        ),
    decreases v.len(),
{
    let n: int = escape_plain(v).len() as int;
    if v.len() == 0 {
        assert(escape_plain(v) == Seq::<char>::empty());
        assert(acc + v =~= acc);
    } else {
        lemma_escape_front(v);
        let rest = v.skip(1);
        let c = v[0];
        if c == '"' || c == '\\' {
            assert(s[a] == escape_plain(v)[0]);
            assert(s[a + 1] == escape_plain(v)[1]);
            let e = escape_plain(v);
            assert(e.subrange(2, n) =~= escape_plain(rest));
            assert(s.subrange(a + 2, a + n) =~= s.subrange(a, a + n).subrange(2, n));
            assert(s.subrange(a + 2, a + n) =~= escape_plain(rest));
            lemma_string_lit(s, a + 2, rest, acc.push(c), start);
            assert(acc.push(c) + rest =~= acc + v);
            assert(string_lit(s, a + 1, true, acc, start) == string_lit(s, a + 2, false, acc.push(c), start));
            assert(string_lit(s, a, false, acc, start) == string_lit(s, a + 1, true, acc, start));
        } else {
            assert(s[a] == escape_plain(v)[0]);
            let e = escape_plain(v);
            assert(e.subrange(1, n) =~= escape_plain(rest));
            assert(s.subrange(a + 1, a + n) =~= s.subrange(a, a + n).subrange(1, n));
            assert(s.subrange(a + 1, a + n) =~= escape_plain(rest));
            lemma_string_lit(s, a + 1, rest, acc.push(c), start);
            assert(acc.push(c) + rest =~= acc + v);
            assert(string_lit(s, a, false, acc, start) == string_lit(s, a + 1, false, acc.push(c), start));
        }
    }
}

proof fn lemma_number_end(s: Seq<char>, a: int, b: int, seen: bool)
    requires
        0 <= a <= b <= s.len(),
        forall|i: int| a <= i < b ==> ascii_digit(#[trigger] s[i]) || s[i] == '.',
        forall|i: int, j: int| a <= i < j < b && #[trigger] s[i] == '.' ==> #[trigger] s[j] != '.',
        seen ==> forall|i: int| a <= i < b ==> #[trigger] s[i] != '.',
        b < s.len() ==> !ascii_digit(s[b]) && s[b] != '.',
    ensures
        number_end(s, a, seen) == b,
    decreases b - a,
{
    if a < b {
        let seen2 = seen || s[a] == '.';
        assert(seen2 ==> forall|i: int| a + 1 <= i < b ==> #[trigger] s[i] != '.') by {
            if s[a] == '.' {
                assert forall|i: int| a + 1 <= i < b implies #[trigger] s[i] != '.' by {
                    assert(s[a] == '.');
                }
            }
        }
        lemma_number_end(s, a + 1, b, seen2);
    }
}


proof fn lemma_keywords()
    ensures
        keyword(tok_chars(TokenV::Type)) == TokenV::Type,
        keyword(tok_chars(TokenV::Bool)) == TokenV::Bool,
        keyword(tok_chars(TokenV::String)) == TokenV::String,
        keyword(tok_chars(TokenV::Number)) == TokenV::Number,
        keyword(tok_chars(TokenV::True)) == TokenV::True,
        keyword(tok_chars(TokenV::False)) == TokenV::False,
        keyword(tok_chars(TokenV::Agreement)) == TokenV::Agreement,
        keyword(tok_chars(TokenV::Sticky)) == TokenV::Sticky,
        keyword(tok_chars(TokenV::Wins)) == TokenV::Wins,
        keyword(tok_chars(TokenV::Last)) == TokenV::Last,
        keyword(tok_chars(TokenV::Highest)) == TokenV::Highest,
        keyword(tok_chars(TokenV::Largest)) == TokenV::Largest,
{
    reveal_strlit("type");
    reveal_strlit("bool");
    reveal_strlit("string");
    reveal_strlit("number");
    reveal_strlit("true");
    reveal_strlit("false");
    reveal_strlit("agreement");
    reveal_strlit("sticky");
    reveal_strlit("wins");
    reveal_strlit("last");
    reveal_strlit("highest");
    reveal_strlit("largest");
    assert(tok_chars(TokenV::Type) =~= "type"@);
    assert(tok_chars(TokenV::Bool) =~= "bool"@);
    assert(tok_chars(TokenV::String) =~= "string"@);
    assert(tok_chars(TokenV::Number) =~= "number"@);
    assert(tok_chars(TokenV::True) =~= "true"@);
    assert(tok_chars(TokenV::False) =~= "false"@);
    assert(tok_chars(TokenV::Agreement) =~= "agreement"@);
    assert(tok_chars(TokenV::Sticky) =~= "sticky"@);
    assert(tok_chars(TokenV::Wins) =~= "wins"@);
    assert(tok_chars(TokenV::Last) =~= "last"@);
    assert(tok_chars(TokenV::Highest) =~= "highest"@);
    assert(tok_chars(TokenV::Largest) =~= "largest"@);
}

/// A readable token is written with at least one character, and the first
/// is not white space.
proof fn lemma_tok_first(t: TokenV)
    requires
        tok_ok(t),
    ensures
        tok_chars(t).len() > 0,
        !is_white_space(tok_chars(t)[0]),
{
}

/// A word is written with identifier characters, the first a letter or `_`.
proof fn lemma_word_chars(t: TokenV)
    requires
        tok_ok(t),
        is_word(t),
    ensures
        forall|i: int| 0 <= i < tok_chars(t).len() ==> ident_char(#[trigger] tok_chars(t)[i]),
        is_alphabetic(tok_chars(t)[0]) || tok_chars(t)[0] == '_',
        keyword(tok_chars(t)) == t,
{
    lemma_keywords();
    let w = tok_chars(t);
    assert forall|i: int| 0 <= i < w.len() implies ident_char(#[trigger] w[i]) by {
        if let TokenV::Identifier(_) = t {
        } else {
            assert(('a' <= w[i] && w[i] <= 'z'));
        }
    }
}

/// The lexer reads back a readable token from its characters when the
/// character after them may follow it.
proof fn lemma_lex_one_item(s: Seq<char>, j: int, e: int, t: TokenV)
    requires
        0 <= j <= e <= s.len(),
        s.subrange(j, e) == tok_chars(t),
        tok_ok(t),
        e < s.len() ==> may_follow(t, s[e]),
    ensures
        lex_one(s, j) == Ok::<(TokenV, int), crate::parser::ParseErrorV>((t, e)),
{
    lemma_tok_first(t);
    let w = tok_chars(t);
    assert(s[j] == w[0]);
    if is_word(t) {
        lemma_word_chars(t);
        assert forall|i: int| j <= i < e implies ident_char(#[trigger] s[i]) by {
            assert(s[i] == w[i - j]);
        }
        lemma_ident_end(s, j, e);
    } else {
        match t {
            TokenV::StringLiteral(v) => {
                let ep = escape_plain(v);
                assert(s.subrange(j + 1, j + 1 + ep.len()) =~= ep) by {
                    assert forall|i: int| 0 <= i < ep.len() implies s.subrange(j + 1, j + 1 + ep.len())[i] == ep[i] by {
                        assert(s[j + 1 + i] == w[1 + i]);
                    }
                }
                assert(s[j + 1 + ep.len()] == w[1 + ep.len() as int]);
                lemma_string_lit(s, j + 1, v, Seq::empty(), j);
                assert(Seq::<char>::empty() + v =~= v);
            },
            TokenV::NumberLiteral(x) => {
                let k: int = if s[j] == '-' {
                    j + 1
                } else {
                    j
                };
                let kx: int = if x[0] == '-' {
                    1
                } else {
                    0
                };
                assert(k == j + kx);
                assert forall|i: int| k <= i < e implies ascii_digit(#[trigger] s[i]) || s[i] == '.' by {
                    assert(s[i] == x[i - j]);
                }
                assert forall|a: int, b: int| k <= a < b < e && #[trigger] s[a] == '.' implies #[trigger] s[b] != '.' by {
                    assert(s[a] == x[a - j]);
                    assert(s[b] == x[b - j]);
                }
                lemma_number_end(s, k, e, false);
                let d = choose|i: int| kx <= i < x.len() && ascii_digit(#[trigger] x[i]);
                assert(ascii_digit(s[j + d]));
                assert(s.subrange(j, e) == x);
            },
            _ => {},
        }
    }
}


// ------------------------------------------------------------------ reading a text of tokens back

/// Where item `k` starts in the text of `items`.
pub open spec fn offset(items: Seq<Item>, k: int) -> int {
    render(items.take(k)).len() as int
}

proof fn lemma_render_prefix(items: Seq<Item>, k: int)
    requires
        0 <= k <= items.len(),
    ensures
        offset(items, k) <= render(items).len(),
        render(items).subrange(0, offset(items, k)) == render(items.take(k)),
    decreases items.len() - k,
{
    if k == items.len() {
        assert(items.take(k) =~= items);
    } else {
        lemma_render_prefix(items, k + 1);
        assert(items.take(k + 1).drop_last() =~= items.take(k));
        let big = render(items);
        let r1 = render(items.take(k + 1));
        assert(r1 == render(items.take(k)) + item_chars(items[k]));
        assert(big.subrange(0, offset(items, k)) =~= r1.subrange(0, offset(items, k)));
        assert(r1.subrange(0, offset(items, k)) =~= render(items.take(k)));
    }
}

proof fn lemma_item_at(items: Seq<Item>, k: int)
    requires
        0 <= k < items.len(),
    ensures
        offset(items, k + 1) == offset(items, k) + item_chars(items[k]).len(),
        offset(items, k + 1) <= render(items).len(),
        render(items).subrange(offset(items, k), offset(items, k + 1)) == item_chars(items[k]),
{
    lemma_render_prefix(items, k + 1);
    assert(items.take(k + 1).drop_last() =~= items.take(k));
    let r1 = render(items.take(k + 1));
    assert(r1 == render(items.take(k)) + item_chars(items[k]));
    let big = render(items);
    assert(big.subrange(offset(items, k), offset(items, k + 1)) =~= r1.subrange(offset(items, k), offset(items, k + 1)));
}

/// The lexer reads the tokens of well-written items back from their text.
pub proof fn lemma_lex_items(items: Seq<Item>, k: int)
    requires
        items_ok(items),
        0 <= k <= items.len(),
    ensures
        lex(render(items), offset(items, k)) matches Ok(ts) && ts.len() == items.len() - k && forall|m: int|
            0 <= m < ts.len() ==> (#[trigger] ts[m]).0 == items[k + m].1,
    decreases items.len() - k,
{
    let s = render(items);
    if k == items.len() {
        assert(items.take(k) =~= items);
        assert(skip_ws(s, offset(items, k)) == offset(items, k));
    } else {
        lemma_item_at(items, k);
        let it = items[k];
        let a = offset(items, k);
        let j = a + it.0.len();
        let e = offset(items, k + 1);
        lemma_tok_first(it.1);
        assert forall|i: int| a <= i < j implies is_white_space(#[trigger] s[i]) by {
            assert(s[i] == item_chars(it)[i - a]);
            assert(item_chars(it)[i - a] == it.0[i - a]);
        }
        assert(s[j] == item_chars(it)[j - a]);
        lemma_skip_sep(s, a, j);
        assert(s.subrange(j, e) =~= tok_chars(it.1)) by {
            assert forall|i: int| 0 <= i < tok_chars(it.1).len() implies s.subrange(j, e)[i] == tok_chars(it.1)[i] by {
                assert(s[j + i] == item_chars(it)[j + i - a]);
            }
        }
        if e < s.len() {
            lemma_item_at(items, k + 1);
            lemma_tok_first(items[k + 1].1);
            assert(s[e] == item_chars(items[k + 1])[0]);
            assert(may_follow(items[k].1, item_chars(items[k + 1])[0]));
        }
        lemma_lex_one_item(s, j, e, it.1);
        lemma_lex_items(items, k + 1);
        let rest = lex(s, e)->Ok_0;
        assert(lex(s, a) == Ok::<Seq<(TokenV, crate::parser::Position)>, crate::parser::ParseErrorV>(
            seq![(it.1, pos_at(s, j))] + rest,
        ));
        let ts = seq![(it.1, pos_at(s, j))] + rest;
        assert forall|m: int| 0 <= m < ts.len() implies (#[trigger] ts[m]).0 == items[k + m].1 by {
            if m > 0 {
                assert(ts[m] == rest[m - 1]);
            }
        }
    }
}


// ------------------------------------------------------------------ the tokens of a policy type

/// A token written after one space.
pub open spec fn spaced(t: TokenV) -> Item {
    (seq![' '], t)
}

/// A token written right after the one before it.
pub open spec fn tight(t: TokenV) -> Item {
    (Seq::empty(), t)
}

/// The tokens of a conflict strategy: `@ agreement`, `@` and the words for
/// the largest value, or nothing.
pub open spec fn conflict_items(oc: OnConflict, largest: Seq<TokenV>) -> Seq<Item> {
    match oc {
        OnConflict::Default => Seq::empty(),
        OnConflict::Agreement => seq![spaced(TokenV::At), spaced(TokenV::Agreement)],
        OnConflict::LargestValue => seq![spaced(TokenV::At)] + Seq::new(largest.len(), |i: int| spaced(largest[i])),
    }
}

/// The tokens of an optional string default.
pub open spec fn str_default_items(d: Option<Seq<char>>) -> Seq<Item> {
    match d {
        Some(v) => seq![spaced(TokenV::Equals), spaced(TokenV::StringLiteral(v))],
        None => Seq::empty(),
    }
}

/// The tokens of the values of an enum: the first, then each after a comma.
pub open spec fn values_items(vs: Seq<Seq<char>>) -> Seq<Item>
    decreases vs.len(),
{
    if vs.len() == 0 {
        Seq::empty()
    } else if vs.len() == 1 {
        seq![tight(TokenV::StringLiteral(vs[0]))]
    } else {
        values_items(vs.drop_last()) + seq![tight(TokenV::Comma), spaced(TokenV::StringLiteral(vs.last()))]
    }
}

/// The tokens of a field after its name and colon.
pub open spec fn field_body(f: FieldV) -> Seq<Item> {
    match f {
        FieldV::Bool { default, on_conflict, .. } => seq![spaced(TokenV::Bool)] + conflict_items(
            on_conflict,
            seq![TokenV::Sticky],
        ) + if default {
            seq![spaced(TokenV::Equals), spaced(TokenV::True)]
        } else {
            Seq::empty()
        },
        FieldV::String { default, on_conflict, .. } => seq![spaced(TokenV::String)] + conflict_items(
            on_conflict,
            seq![TokenV::Last, TokenV::Wins],
        ) + str_default_items(default),
        FieldV::StringEnum { values, default, on_conflict, .. } => seq![spaced(TokenV::LeftBracket)]
            + values_items(values) + seq![tight(TokenV::RightBracket)] + conflict_items(
            on_conflict,
            seq![TokenV::Highest, TokenV::Wins],
        ) + str_default_items(default),
        FieldV::StringArray { .. } => seq![
            spaced(TokenV::LeftBracket),
            tight(TokenV::String),
            tight(TokenV::RightBracket),
        ],
        FieldV::Number { default, on_conflict, .. } => seq![spaced(TokenV::Number)] + conflict_items(
            on_conflict,
            seq![TokenV::Last, TokenV::Wins],
        ) + match default {
            Some(x) => seq![spaced(TokenV::Equals), spaced(TokenV::NumberLiteral(x))],
            None => Seq::empty(),
        },
    }
}

/// The first item of a field's line: its name, on a new line.
pub open spec fn name_item(f: FieldV) -> Item {
    (seq!['\n', ' ', ' ', ' ', ' '], TokenV::Identifier(field_name(f)))
}

/// The tokens of a field's line, from the line break before it to the comma after it.
pub open spec fn field_items(f: FieldV) -> Seq<Item> {
    seq![name_item(f), tight(TokenV::Colon)] + field_body(f) + seq![tight(TokenV::Comma)]
}

/// The tokens of the lines of fields.
pub open spec fn fields_items(fs: Seq<FieldV>) -> Seq<Item>
    decreases fs.len(),
{
    if fs.len() == 0 {
        Seq::empty()
    } else {
        fields_items(fs.drop_last()) + field_items(fs.last())
    }
}

/// The tokens of a type name made of `segs` joined by `::`.
pub open spec fn name_items(segs: Seq<Seq<char>>) -> Seq<Item>
    decreases segs.len(),
{
    if segs.len() == 0 {
        Seq::empty()
    } else if segs.len() == 1 {
        seq![spaced(TokenV::Identifier(segs[0]))]
    } else {
        name_items(segs.drop_last()) + seq![tight(TokenV::DoubleColon), tight(TokenV::Identifier(segs.last()))]
    }
}

/// The name that `segs` joined by `::` make.
pub open spec fn joined(segs: Seq<Seq<char>>) -> Seq<char>
    decreases segs.len(),
{
    if segs.len() == 0 {
        Seq::empty()
    } else if segs.len() == 1 {
        segs[0]
    } else {
        joined(segs.drop_last()) + seq![':', ':'] + segs.last()
    }
}

/// The tokens of a policy type whose name is made of `segs`.
pub open spec fn type_items(segs: Seq<Seq<char>>, fs: Seq<FieldV>) -> Seq<Item> {
    seq![tight(TokenV::Type)] + name_items(segs) + seq![spaced(TokenV::LeftBrace)] + fields_items(fs) + seq![
        (seq!['\n'], TokenV::RightBrace),
    ]
}

// ------------------------------------------------------------------ the text of those tokens

proof fn lemma_render_concat(a: Seq<Item>, b: Seq<Item>)
    ensures
        render(a + b) == render(a) + render(b),
    decreases b.len(),
{
    if b.len() == 0 {
        assert(a + b =~= a);
        assert(render(a) + render(b) =~= render(a));
    } else {
        lemma_render_concat(a, b.drop_last());
        assert((a + b).drop_last() =~= a + b.drop_last());
        assert((a + b).last() == b.last());
        assert(render(a + b) =~= render(a) + render(b));
    }
}

proof fn lemma_render_one(it: Item)
    ensures
        render(seq![it]) == item_chars(it),
{
    let one = seq![it];
    assert(one.drop_last() =~= Seq::<Item>::empty());
    assert(one.last() == it);
    assert(render(one.drop_last()) == Seq::<char>::empty());
    assert(render(one) == render(one.drop_last()) + item_chars(one.last()));
    assert(render(one) =~= item_chars(it));
}

proof fn lemma_render_two(a: Item, b: Item)
    ensures
        render(seq![a, b]) == item_chars(a) + item_chars(b),
{
    assert(seq![a, b] =~= seq![a] + seq![b]);
    lemma_render_concat(seq![a], seq![b]);
    lemma_render_one(a);
    lemma_render_one(b);
}


proof fn lemma_name_text(segs: Seq<Seq<char>>)
    requires
        segs.len() >= 1,
    ensures
        render(name_items(segs)) == seq![' '] + joined(segs),
    decreases segs.len(),
{
    if segs.len() == 1 {
        lemma_render_one(spaced(TokenV::Identifier(segs[0])));
    } else {
        lemma_name_text(segs.drop_last());
        lemma_render_concat(
            name_items(segs.drop_last()),
            seq![tight(TokenV::DoubleColon), tight(TokenV::Identifier(segs.last()))],
        );
        lemma_render_two(tight(TokenV::DoubleColon), tight(TokenV::Identifier(segs.last())));
        assert(render(name_items(segs)) =~= seq![' '] + joined(segs));
    }
}

proof fn lemma_plain_quoted(v: Seq<char>)
    requires
        plain(v),
    ensures
        debug_quoted(v) == tok_chars(TokenV::StringLiteral(v)),
{
}

proof fn lemma_values_text(vs: Seq<Seq<char>>)
    requires
        forall|i: int| 0 <= i < vs.len() ==> plain(#[trigger] vs[i]),
    ensures
        render(values_items(vs)) == quoted_list(vs),
    decreases vs.len(),
{
    reveal_strlit(", ");
    if vs.len() == 0 {
    } else if vs.len() == 1 {
        lemma_render_one(tight(TokenV::StringLiteral(vs[0])));
        lemma_plain_quoted(vs[0]);
        assert(render(values_items(vs)) =~= quoted_list(vs));
    } else {
        let prev = vs.drop_last();
        assert forall|i: int| 0 <= i < prev.len() implies plain(#[trigger] prev[i]) by {
            assert(prev[i] == vs[i]);
        }
        lemma_values_text(prev);
        let last = vs.last();
        assert(plain(last));
        lemma_plain_quoted(last);
        lemma_render_concat(values_items(prev), seq![tight(TokenV::Comma), spaced(TokenV::StringLiteral(last))]);
        lemma_render_two(tight(TokenV::Comma), spaced(TokenV::StringLiteral(last)));
        assert(render(values_items(vs)) =~= quoted_list(vs));
    }
}

proof fn lemma_conflict_text(oc: OnConflict, words: Seq<TokenV>, text: Seq<char>)
    requires
        words.len() >= 1,
        text == (if words.len() == 1 {
            tok_chars(words[0])
        } else {
            tok_chars(words[0]) + seq![' '] + tok_chars(words[1])
        }),
        words.len() <= 2,
    ensures
        render(conflict_items(oc, words)) == conflict_suffix(oc, text),
{
    reveal_strlit(" @ agreement");
    reveal_strlit(" @ ");
    match oc {
        OnConflict::Default => {},
        OnConflict::Agreement => {
            lemma_render_two(spaced(TokenV::At), spaced(TokenV::Agreement));
            assert(render(conflict_items(oc, words)) =~= conflict_suffix(oc, text));
        },
        OnConflict::LargestValue => {
            let ws = Seq::new(words.len(), |i: int| spaced(words[i]));
            if words.len() == 1 {
                assert(ws =~= seq![spaced(words[0])]);
                lemma_render_two(spaced(TokenV::At), spaced(words[0]));
                assert(seq![spaced(TokenV::At)] + ws =~= seq![spaced(TokenV::At), spaced(words[0])]);
            } else {
                assert(ws =~= seq![spaced(words[0]), spaced(words[1])]);
                lemma_render_concat(seq![spaced(TokenV::At)], ws);
                lemma_render_one(spaced(TokenV::At));
                lemma_render_two(spaced(words[0]), spaced(words[1]));
            }
            assert(render(conflict_items(oc, words)) =~= conflict_suffix(oc, text));
        },
    }
}


/// Whether every string of a field, its enum values and its string
/// default, is plain, and a number default is written as it is displayed.
pub open spec fn field_strings_plain(f: FieldV) -> bool {
    match f {
        FieldV::String { default, .. } => default matches Some(v) ==> plain(v),
        FieldV::StringEnum { values, default, .. } => (default matches Some(v) ==> plain(v)) && forall|i: int|
            0 <= i < values.len() ==> plain(#[trigger] values[i]),
        FieldV::Number { default, .. } => default matches Some(x) ==> number_display(x) == x,
        _ => true,
    }
}

proof fn lemma_str_default_text(d: Option<Seq<char>>)
    requires
        d matches Some(v) ==> plain(v),
    ensures
        render(str_default_items(d)) == string_default_text(d),
{
    reveal_strlit(" = ");
    if let Some(v) = d {
        lemma_plain_quoted(v);
        lemma_render_two(spaced(TokenV::Equals), spaced(TokenV::StringLiteral(v)));
        assert(render(str_default_items(d)) =~= string_default_text(d));
    }
}

/// The text of a field after its name and colon.
pub open spec fn field_rest(f: FieldV) -> Seq<char> {
    field_text(f).subrange(field_name(f).len() + 1int, field_text(f).len() as int)
}

proof fn lemma_field_frame(f: FieldV)
    requires
        render(field_body(f)) == field_rest(f),
        field_text(f) == field_name(f) + seq![':'] + field_rest(f),
    ensures
        render(field_items(f)) == seq!['\n', ' ', ' ', ' ', ' '] + field_text(f) + seq![','],
{
    let head = seq![name_item(f), tight(TokenV::Colon)];
    let tail = seq![tight(TokenV::Comma)];
    lemma_render_two(name_item(f), tight(TokenV::Colon));
    lemma_render_one(tight(TokenV::Comma));
    lemma_render_concat(head + field_body(f), tail);
    lemma_render_concat(head, field_body(f));
    assert(render(field_items(f)) =~= seq!['\n', ' ', ' ', ' ', ' '] + field_text(f) + seq![',']);
}

#[verifier::rlimit(30)]
proof fn lemma_bool_text(f: FieldV)
    requires
        f is Bool,
    ensures
        render(field_body(f)) == field_rest(f),
        field_text(f) == field_name(f) + seq![':'] + field_rest(f),
{
    reveal_strlit(": bool");
    reveal_strlit(" = true");
    reveal_strlit(" = false");
    reveal_strlit("sticky");
    let name = f->Bool_name;
    let default = f->Bool_default;
    let on_conflict = f->Bool_on_conflict;
    let c = conflict_items(on_conflict, seq![TokenV::Sticky]);
    let d: Seq<Item> = if default {
        seq![spaced(TokenV::Equals), spaced(TokenV::True)]
    } else {
        Seq::empty()
    };
    lemma_render_concat(seq![spaced(TokenV::Bool)] + c, d);
    lemma_render_concat(seq![spaced(TokenV::Bool)], c);
    lemma_render_one(spaced(TokenV::Bool));
    assert("sticky"@ =~= tok_chars(TokenV::Sticky));
    lemma_conflict_text(on_conflict, seq![TokenV::Sticky], "sticky"@);
    lemma_render_two(spaced(TokenV::Equals), spaced(TokenV::True));
    assert(field_text(f) =~= name + seq![':'] + render(field_body(f)));
    assert(field_rest(f) =~= render(field_body(f)));
}

#[verifier::rlimit(30)]
proof fn lemma_string_text(f: FieldV)
    requires
        f is String,
        field_strings_plain(f),
    ensures
        render(field_body(f)) == field_rest(f),
        field_text(f) == field_name(f) + seq![':'] + field_rest(f),
{
    reveal_strlit(": string");
    reveal_strlit("last wins");
    let name = f->String_name;
    let default = f->String_default;
    let on_conflict = f->String_on_conflict;
    let c = conflict_items(on_conflict, seq![TokenV::Last, TokenV::Wins]);
    let d = str_default_items(default);
    lemma_render_concat(seq![spaced(TokenV::String)] + c, d);
    lemma_render_concat(seq![spaced(TokenV::String)], c);
    lemma_render_one(spaced(TokenV::String));
    assert("last wins"@ =~= tok_chars(TokenV::Last) + seq![' '] + tok_chars(TokenV::Wins));
    lemma_conflict_text(on_conflict, seq![TokenV::Last, TokenV::Wins], "last wins"@);
    lemma_str_default_text(default);
    assert(field_text(f) =~= name + seq![':'] + render(field_body(f)));
    assert(field_rest(f) =~= render(field_body(f)));
}

#[verifier::rlimit(30)]
proof fn lemma_enum_text(f: FieldV)
    requires
        f is StringEnum,
        field_strings_plain(f),
    ensures
        render(field_body(f)) == field_rest(f),
        field_text(f) == field_name(f) + seq![':'] + field_rest(f),
{
    reveal_strlit(": [");
    reveal_strlit("]");
    reveal_strlit("highest wins");
    let name = f->StringEnum_name;
    let values = f->StringEnum_values;
    let default = f->StringEnum_default;
    let on_conflict = f->StringEnum_on_conflict;
    let c = conflict_items(on_conflict, seq![TokenV::Highest, TokenV::Wins]);
    let d = str_default_items(default);
    let v = values_items(values);
    let b1 = seq![spaced(TokenV::LeftBracket)] + v + seq![tight(TokenV::RightBracket)];
    lemma_render_concat(b1 + c, d);
    lemma_render_concat(b1, c);
    lemma_render_concat(seq![spaced(TokenV::LeftBracket)] + v, seq![tight(TokenV::RightBracket)]);
    lemma_render_concat(seq![spaced(TokenV::LeftBracket)], v);
    lemma_render_one(spaced(TokenV::LeftBracket));
    lemma_render_one(tight(TokenV::RightBracket));
    lemma_values_text(values);
    assert("highest wins"@ =~= tok_chars(TokenV::Highest) + seq![' '] + tok_chars(TokenV::Wins));
    lemma_conflict_text(on_conflict, seq![TokenV::Highest, TokenV::Wins], "highest wins"@);
    lemma_str_default_text(default);
    assert(field_text(f) =~= name + seq![':'] + render(field_body(f)));
    assert(field_rest(f) =~= render(field_body(f)));
}

proof fn lemma_array_text(f: FieldV)
    requires
        f is StringArray,
    ensures
        render(field_body(f)) == field_rest(f),
        field_text(f) == field_name(f) + seq![':'] + field_rest(f),
{
    reveal_strlit(": [string]");
    let name = f->StringArray_name;
    lemma_render_concat(seq![spaced(TokenV::LeftBracket)], seq![tight(TokenV::String), tight(TokenV::RightBracket)]);
    assert(field_body(f) =~= seq![spaced(TokenV::LeftBracket)] + seq![tight(TokenV::String), tight(TokenV::RightBracket)]);
    lemma_render_one(spaced(TokenV::LeftBracket));
    lemma_render_two(tight(TokenV::String), tight(TokenV::RightBracket));
    assert(field_text(f) =~= name + seq![':'] + render(field_body(f)));
    assert(field_rest(f) =~= render(field_body(f)));
}

#[verifier::rlimit(30)]
proof fn lemma_number_text(f: FieldV)
    requires
        f is Number,
        field_strings_plain(f),
    ensures
        render(field_body(f)) == field_rest(f),
        field_text(f) == field_name(f) + seq![':'] + field_rest(f),
{
    reveal_strlit(": number");
    reveal_strlit(" = ");
    reveal_strlit("last wins");
    let name = f->Number_name;
    let default = f->Number_default;
    let on_conflict = f->Number_on_conflict;
    let c = conflict_items(on_conflict, seq![TokenV::Last, TokenV::Wins]);
    let d: Seq<Item> = match default {
        Some(x) => seq![spaced(TokenV::Equals), spaced(TokenV::NumberLiteral(x))],
        None => Seq::empty(),
    };
    lemma_render_concat(seq![spaced(TokenV::Number)] + c, d);
    lemma_render_concat(seq![spaced(TokenV::Number)], c);
    lemma_render_one(spaced(TokenV::Number));
    assert("last wins"@ =~= tok_chars(TokenV::Last) + seq![' '] + tok_chars(TokenV::Wins));
    lemma_conflict_text(on_conflict, seq![TokenV::Last, TokenV::Wins], "last wins"@);
    if let Some(x) = default {
        lemma_render_two(spaced(TokenV::Equals), spaced(TokenV::NumberLiteral(x)));
    }
    assert(field_text(f) =~= name + seq![':'] + render(field_body(f)));
    assert(field_rest(f) =~= render(field_body(f)));
}

proof fn lemma_field_text(f: FieldV)
    requires
        field_strings_plain(f),
    ensures
        render(field_items(f)) == seq!['\n', ' ', ' ', ' ', ' '] + field_text(f) + seq![','],
{
    match f {
        FieldV::Bool { .. } => lemma_bool_text(f),
        FieldV::String { .. } => lemma_string_text(f),
        FieldV::StringEnum { .. } => lemma_enum_text(f),
        FieldV::StringArray { .. } => lemma_array_text(f),
        FieldV::Number { .. } => lemma_number_text(f),
    }
    lemma_field_frame(f);
}

/// Whether the strings of every field are plain.
pub open spec fn fields_plain(fs: Seq<FieldV>) -> bool {
    forall|i: int| 0 <= i < fs.len() ==> field_strings_plain(#[trigger] fs[i])
}

proof fn lemma_fields_items_text(fs: Seq<FieldV>)
    requires
        fields_plain(fs),
    ensures
        render(fields_items(fs)) + seq!['\n'] == seq!['\n'] + fields_text(fs),
    decreases fs.len(),
{
    reveal_strlit("    ");
    reveal_strlit(",\n");
    if fs.len() == 0 {
        assert(render(fields_items(fs)) + seq!['\n'] =~= seq!['\n'] + fields_text(fs));
    } else {
        let prev = fs.drop_last();
        assert forall|i: int| 0 <= i < prev.len() implies field_strings_plain(#[trigger] prev[i]) by {
            assert(prev[i] == fs[i]);
        }
        lemma_fields_items_text(prev);
        lemma_field_text(fs.last());
        lemma_render_concat(fields_items(prev), field_items(fs.last()));
        let r = render(fields_items(prev));
        let ft = field_text(fs.last());
        assert(render(fields_items(fs)) == r + (seq!['\n', ' ', ' ', ' ', ' '] + ft + seq![',']));
        assert(render(fields_items(fs)) + seq!['\n'] =~= (r + seq!['\n']) + (seq![' ', ' ', ' ', ' '] + ft + seq![',', '\n']));
        assert(fields_text(fs) == fields_text(prev) + "    "@ + ft + ",\n"@);
        assert(seq!['\n'] + fields_text(fs) =~= (seq!['\n'] + fields_text(prev)) + (seq![' ', ' ', ' ', ' '] + ft + seq![',', '\n']));
    }
}

proof fn lemma_type_text(segs: Seq<Seq<char>>, pt: PolicyTypeV)
    requires
        segs.len() >= 1,
        pt.name == joined(segs),
        fields_plain(pt.fields),
    ensures
        render(type_items(segs, pt.fields)) == policy_type_text(pt),
{
    reveal_strlit("type ");
    reveal_strlit(" {\n");
    reveal_strlit("}");
    let a = seq![tight(TokenV::Type)];
    let n = name_items(segs);
    let b = seq![spaced(TokenV::LeftBrace)];
    let f = fields_items(pt.fields);
    let c = seq![(seq!['\n'], TokenV::RightBrace)];
    lemma_render_concat(a + n + b + f, c);
    lemma_render_concat(a + n + b, f);
    lemma_render_concat(a + n, b);
    lemma_render_concat(a, n);
    lemma_render_one(tight(TokenV::Type));
    lemma_render_one(spaced(TokenV::LeftBrace));
    lemma_render_one((seq!['\n'], TokenV::RightBrace));
    lemma_name_text(segs);
    lemma_fields_items_text(pt.fields);
    let fr = render(f);
    assert(fr + seq!['\n'] == seq!['\n'] + fields_text(pt.fields));
    assert(render(type_items(segs, pt.fields)) =~= seq!['t', 'y', 'p', 'e', ' '] + pt.name + seq![' ', '{'] + (fr + seq!['\n']) + seq!['}']);
    assert(render(type_items(segs, pt.fields)) =~= policy_type_text(pt));
}

// ------------------------------------------------------------------ the tokens of a policy type are well written

proof fn lemma_items_ok_concat(a: Seq<Item>, b: Seq<Item>)
    requires
        items_ok(a),
        items_ok(b),
        a.len() > 0 && b.len() > 0 ==> may_follow(a.last().1, item_chars(b[0])[0]),
    ensures
        items_ok(a + b),
{
    let c = a + b;
    assert forall|i: int| 0 <= i < c.len() implies tok_ok(#[trigger] c[i].1) by {
        if i < a.len() {
            assert(c[i] == a[i]);
        } else {
            assert(c[i] == b[i - a.len()]);
        }
    }
    assert forall|i: int, j: int| 0 <= i < c.len() && 0 <= j < c[i].0.len() implies is_white_space(#[trigger] c[i].0[j]) by {
        if i < a.len() {
            assert(c[i] == a[i]);
        } else {
            assert(c[i] == b[i - a.len()]);
        }
    }
    assert forall|i: int, j: int| 0 <= i && j == i + 1 && j < c.len() implies may_follow(
        #[trigger] c[i].1,
        item_chars(#[trigger] c[j])[0],
    ) by {
        if j < a.len() {
            assert(c[i] == a[i] && c[j] == a[j]);
        } else if i >= a.len() {
            assert(c[i] == b[i - a.len()] && c[j] == b[j - a.len()]);
        } else {
            assert(c[i] == a.last() && c[j] == b[0]);
        }
    }
}

proof fn lemma_space_follows(t: TokenV, c: char)
    requires
        c == ' ' || c == '\n',
    ensures
        may_follow(t, c),
{
}

/// Items each written after one space are well written when their tokens are.
proof fn lemma_spaced_ok(items: Seq<Item>)
    requires
        forall|i: int| 0 <= i < items.len() ==> (#[trigger] items[i]).0 == seq![' '] && tok_ok(items[i].1),
    ensures
        items_ok(items),
{
    assert forall|i: int, j: int| 0 <= i && j == i + 1 && j < items.len() implies may_follow(
        #[trigger] items[i].1,
        item_chars(#[trigger] items[j])[0],
    ) by {
        assert(items[j].0 == seq![' ']);
        assert(item_chars(items[j])[0] == ' ');
        lemma_space_follows(items[i].1, ' ');
    }
    assert forall|i: int, j: int| 0 <= i < items.len() && 0 <= j < items[i].0.len() implies is_white_space(
        #[trigger] items[i].0[j],
    ) by {
        assert(items[i].0 == seq![' ']);
    }
}

proof fn lemma_one_ok(it: Item)
    requires
        tok_ok(it.1),
        forall|j: int| 0 <= j < it.0.len() ==> is_white_space(#[trigger] it.0[j]),
    ensures
        items_ok(seq![it]),
{
    assert forall|i: int, j: int| 0 <= i < 1 && 0 <= j < seq![it][i].0.len() implies is_white_space(
        #[trigger] seq![it][i].0[j],
    ) by {
        assert(seq![it][i] == it);
    }
}

/// Whether a string is plain: `Debug` writes it between double quotes with
/// nothing escaped but a backslash put before each double quote and each
/// backslash.  Every string of printable ASCII characters is plain.
pub open spec fn plain(v: Seq<char>) -> bool {
    debug_quoted(v) == seq!['"'] + escape_plain(v) + seq!['"']
}

proof fn lemma_values_ok(vs: Seq<Seq<char>>)
    requires
        forall|i: int| 0 <= i < vs.len() ==> plain(#[trigger] vs[i]),
    ensures
        items_ok(values_items(vs)),
        vs.len() > 0 ==> values_items(vs).len() > 0 && values_items(vs)[0] == tight(TokenV::StringLiteral(vs[0]))
            && values_items(vs).last().1 is StringLiteral,
    decreases vs.len(),
{
    if vs.len() == 1 {
        lemma_one_ok(tight(TokenV::StringLiteral(vs[0])));
    } else if vs.len() > 1 {
        let prev = vs.drop_last();
        assert forall|i: int| 0 <= i < prev.len() implies plain(#[trigger] prev[i]) by {
            assert(prev[i] == vs[i]);
        }
        lemma_values_ok(prev);
        let tail = seq![tight(TokenV::Comma), spaced(TokenV::StringLiteral(vs.last()))];
        assert(plain(vs.last()));
        assert(items_ok(tail)) by {
            assert forall|i: int, j: int| 0 <= i < tail.len() && 0 <= j < tail[i].0.len() implies is_white_space(
                #[trigger] tail[i].0[j],
            ) by {}
            assert forall|i: int, j: int| 0 <= i && j == i + 1 && j < tail.len() implies may_follow(
                #[trigger] tail[i].1,
                item_chars(#[trigger] tail[j])[0],
            ) by {}
        }
        lemma_items_ok_concat(values_items(prev), tail);
        assert(values_items(vs)[0] == values_items(prev)[0]);
    }
}


/// Whether every item is a readable token written after one space.
pub open spec fn all_spaced(items: Seq<Item>) -> bool {
    forall|i: int| 0 <= i < items.len() ==> (#[trigger] items[i]).0 == seq![' '] && tok_ok(items[i].1)
}

proof fn lemma_all_spaced_concat(a: Seq<Item>, b: Seq<Item>)
    requires
        all_spaced(a),
        all_spaced(b),
    ensures
        all_spaced(a + b),
{
    assert forall|i: int| 0 <= i < (a + b).len() implies (#[trigger] (a + b)[i]).0 == seq![' '] && tok_ok((a + b)[i].1) by {
        if i < a.len() {
            assert((a + b)[i] == a[i]);
        } else {
            assert((a + b)[i] == b[i - a.len()]);
        }
    }
}

proof fn lemma_conflict_spaced(oc: OnConflict, words: Seq<TokenV>)
    requires
        forall|i: int| 0 <= i < words.len() ==> is_word(#[trigger] words[i]) && !(words[i] is Identifier),
    ensures
        all_spaced(conflict_items(oc, words)),
{
    let c = conflict_items(oc, words);
    if oc == OnConflict::LargestValue {
        let ws = Seq::new(words.len(), |i: int| spaced(words[i]));
        assert forall|i: int| 0 <= i < c.len() implies (#[trigger] c[i]).0 == seq![' '] && tok_ok(c[i].1) by {
            if i > 0 {
                assert(c[i] == ws[i - 1]);
                assert(is_word(words[i - 1]));
            }
        }
    }
}

/// Whether a field is written so that it reads back: its name is an
/// identifier, its strings are plain, an enum has values, and a number
/// default is a number literal written as a number is displayed.
pub open spec fn field_ok(f: FieldV) -> bool {
    &&& ident_ok(field_name(f))
    &&& match f {
        FieldV::String { default, .. } => default matches Some(v) ==> plain(v),
        FieldV::StringEnum { values, default, .. } => values.len() > 0 && (forall|i: int|
            0 <= i < values.len() ==> plain(#[trigger] values[i])) && (default matches Some(v) ==> plain(v)),
        FieldV::Number { default, .. } => default matches Some(x) ==> num_ok(x) && number_display(x) == x,
        _ => true,
    }
}

proof fn lemma_body_ok(f: FieldV)
    requires
        field_ok(f),
    ensures
        items_ok(field_body(f)),
        field_body(f).len() > 0,
        field_body(f)[0].0 == seq![' '],
        may_follow(field_body(f).last().1, ','),
{
    let b = field_body(f);
    match f {
        FieldV::Bool { default, on_conflict, .. } => {
            let d: Seq<Item> = if default {
                seq![spaced(TokenV::Equals), spaced(TokenV::True)]
            } else {
                Seq::empty()
            };
            lemma_conflict_spaced(on_conflict, seq![TokenV::Sticky]);
            lemma_all_spaced_concat(seq![spaced(TokenV::Bool)], conflict_items(on_conflict, seq![TokenV::Sticky]));
            lemma_all_spaced_concat(seq![spaced(TokenV::Bool)] + conflict_items(on_conflict, seq![TokenV::Sticky]), d);
            lemma_spaced_ok(b);
        },
        FieldV::String { default, on_conflict, .. } => {
            let words = seq![TokenV::Last, TokenV::Wins];
            lemma_conflict_spaced(on_conflict, words);
            lemma_all_spaced_concat(seq![spaced(TokenV::String)], conflict_items(on_conflict, words));
            lemma_all_spaced_concat(seq![spaced(TokenV::String)] + conflict_items(on_conflict, words), str_default_items(default));
            lemma_spaced_ok(b);
        },
        FieldV::Number { default, on_conflict, .. } => {
            let words = seq![TokenV::Last, TokenV::Wins];
            let d: Seq<Item> = match default {
                Some(x) => seq![spaced(TokenV::Equals), spaced(TokenV::NumberLiteral(x))],
                None => Seq::empty(),
            };
            lemma_conflict_spaced(on_conflict, words);
            lemma_all_spaced_concat(seq![spaced(TokenV::Number)], conflict_items(on_conflict, words));
            lemma_all_spaced_concat(seq![spaced(TokenV::Number)] + conflict_items(on_conflict, words), d);
            lemma_spaced_ok(b);
        },
        FieldV::StringArray { .. } => {
            assert(items_ok(b)) by {
                assert forall|i: int, j: int| 0 <= i < b.len() && 0 <= j < b[i].0.len() implies is_white_space(
                    #[trigger] b[i].0[j],
                ) by {}
                assert forall|i: int, j: int| 0 <= i && j == i + 1 && j < b.len() implies may_follow(
                    #[trigger] b[i].1,
                    item_chars(#[trigger] b[j])[0],
                ) by {}
            }
        },
        FieldV::StringEnum { values, default, on_conflict, .. } => {
            let words = seq![TokenV::Highest, TokenV::Wins];
            let lb = seq![spaced(TokenV::LeftBracket)];
            let v = values_items(values);
            let rb = seq![tight(TokenV::RightBracket)];
            let c = conflict_items(on_conflict, words);
            let d = str_default_items(default);
            lemma_values_ok(values);
            lemma_one_ok(spaced(TokenV::LeftBracket));
            lemma_one_ok(tight(TokenV::RightBracket));
            lemma_items_ok_concat(lb, v);
            lemma_items_ok_concat(lb + v, rb);
            lemma_conflict_spaced(on_conflict, words);
            lemma_all_spaced_concat(c, d);
            lemma_spaced_ok(c + d);
            let head = lb + v + rb;
            assert(head.last() == tight(TokenV::RightBracket));
            if (c + d).len() > 0 {
                assert((c + d)[0].0 == seq![' ']);
            }
            lemma_items_ok_concat(head, c + d);
            assert(b =~= head + (c + d));
            if (c + d).len() > 0 {
                assert(b.last() == (c + d).last());
            }
        },
    }
}


proof fn lemma_field_items_ok(f: FieldV)
    requires
        field_ok(f),
    ensures
        items_ok(field_items(f)),
        field_items(f)[0] == name_item(f),
        field_items(f).last().1 == TokenV::Comma,
{
    lemma_body_ok(f);
    let head = seq![name_item(f), tight(TokenV::Colon)];
    let tail = seq![tight(TokenV::Comma)];
    assert(items_ok(head)) by {
        assert forall|i: int, j: int| 0 <= i < head.len() && 0 <= j < head[i].0.len() implies is_white_space(
            #[trigger] head[i].0[j],
        ) by {}
        assert forall|i: int, j: int| 0 <= i && j == i + 1 && j < head.len() implies may_follow(
            #[trigger] head[i].1,
            item_chars(#[trigger] head[j])[0],
        ) by {}
    }
    lemma_one_ok(tight(TokenV::Comma));
    lemma_items_ok_concat(head, field_body(f));
    lemma_items_ok_concat(head + field_body(f), tail);
}

/// Whether fields read back and no two share a name.
pub open spec fn fields_ok(fs: Seq<FieldV>) -> bool {
    &&& forall|i: int| 0 <= i < fs.len() ==> field_ok(#[trigger] fs[i])
    &&& forall|i: int, j: int| 0 <= i < j < fs.len() ==> field_name(#[trigger] fs[i]) != field_name(#[trigger] fs[j])
}

proof fn lemma_fields_items_ok(fs: Seq<FieldV>)
    requires
        forall|i: int| 0 <= i < fs.len() ==> field_ok(#[trigger] fs[i]),
    ensures
        items_ok(fields_items(fs)),
        fs.len() > 0 ==> fields_items(fs).len() > 0 && fields_items(fs)[0] == name_item(fs[0])
            && fields_items(fs).last().1 == TokenV::Comma,
    decreases fs.len(),
{
    if fs.len() > 0 {
        let prev = fs.drop_last();
        assert forall|i: int| 0 <= i < prev.len() implies field_ok(#[trigger] prev[i]) by {
            assert(prev[i] == fs[i]);
        }
        lemma_fields_items_ok(prev);
        lemma_field_items_ok(fs.last());
        lemma_items_ok_concat(fields_items(prev), field_items(fs.last()));
        if prev.len() > 0 {
            assert(fields_items(fs)[0] == fields_items(prev)[0]);
        } else {
            assert(fields_items(prev) =~= Seq::<Item>::empty());
            assert(fields_items(fs) =~= field_items(fs.last()));
        }
    }
}

/// Whether the segments of a type name read back.
pub open spec fn segs_ok(segs: Seq<Seq<char>>) -> bool {
    segs.len() >= 1 && forall|i: int| 0 <= i < segs.len() ==> ident_ok(#[trigger] segs[i])
}

proof fn lemma_name_items_ok(segs: Seq<Seq<char>>)
    requires
        segs_ok(segs),
    ensures
        items_ok(name_items(segs)),
        name_items(segs).len() > 0,
        name_items(segs)[0].0 == seq![' '],
        name_items(segs).last().1 is Identifier,
    decreases segs.len(),
{
    if segs.len() == 1 {
        assert(ident_ok(segs[0]));
        lemma_one_ok(spaced(TokenV::Identifier(segs[0])));
    } else {
        let prev = segs.drop_last();
        assert forall|i: int| 0 <= i < prev.len() implies ident_ok(#[trigger] prev[i]) by {
            assert(prev[i] == segs[i]);
        }
        lemma_name_items_ok(prev);
        let tail = seq![tight(TokenV::DoubleColon), tight(TokenV::Identifier(segs.last()))];
        assert(ident_ok(segs.last()));
        assert(items_ok(tail)) by {
            assert forall|i: int, j: int| 0 <= i < tail.len() && 0 <= j < tail[i].0.len() implies is_white_space(
                #[trigger] tail[i].0[j],
            ) by {}
            assert forall|i: int, j: int| 0 <= i && j == i + 1 && j < tail.len() implies may_follow(
                #[trigger] tail[i].1,
                item_chars(#[trigger] tail[j])[0],
            ) by {}
        }
        lemma_items_ok_concat(name_items(prev), tail);
        assert(name_items(segs)[0] == name_items(prev)[0]);
    }
}

proof fn lemma_type_items_ok(segs: Seq<Seq<char>>, fs: Seq<FieldV>)
    requires
        segs_ok(segs),
        forall|i: int| 0 <= i < fs.len() ==> field_ok(#[trigger] fs[i]),
    ensures
        items_ok(type_items(segs, fs)),
{
    let a = seq![tight(TokenV::Type)];
    let n = name_items(segs);
    let b = seq![spaced(TokenV::LeftBrace)];
    let f = fields_items(fs);
    let c = seq![(seq!['\n'], TokenV::RightBrace)];
    lemma_one_ok(tight(TokenV::Type));
    lemma_one_ok(spaced(TokenV::LeftBrace));
    lemma_one_ok((seq!['\n'], TokenV::RightBrace));
    lemma_name_items_ok(segs);
    lemma_fields_items_ok(fs);
    lemma_items_ok_concat(a, n);
    lemma_items_ok_concat(a + n, b);
    lemma_items_ok_concat(a + n + b, f);
    if f.len() > 0 {
        assert((a + n + b + f).last() == f.last());
    } else {
        assert(a + n + b + f =~= a + n + b);
    }
    lemma_items_ok_concat(a + n + b + f, c);
}


// ------------------------------------------------------------------ parsing those tokens back

/// Whether the tokens from `k` on begin with the kinds `ks`.
pub open spec fn has_kinds(toks: Toks, k: int, ks: Seq<TokenV>) -> bool {
    &&& 0 <= k
    &&& k + ks.len() <= toks.len()
    &&& forall|m: int| 0 <= m < ks.len() ==> toks[k + m].0 == #[trigger] ks[m]
}

proof fn lemma_kinds_concat(a: Seq<Item>, b: Seq<Item>)
    ensures
        kinds(a + b) == kinds(a) + kinds(b),
{
    assert(kinds(a + b) =~= kinds(a) + kinds(b));
}

proof fn lemma_has_kinds_split(toks: Toks, k: int, a: Seq<TokenV>, b: Seq<TokenV>)
    requires
        has_kinds(toks, k, a + b),
    ensures
        has_kinds(toks, k, a),
        has_kinds(toks, k + a.len(), b),
{
    assert forall|m: int| 0 <= m < a.len() implies toks[k + m].0 == #[trigger] a[m] by {
        assert((a + b)[m] == a[m]);
    }
    assert forall|m: int| 0 <= m < b.len() implies toks[k + a.len() + m].0 == #[trigger] b[m] by {
        assert((a + b)[a.len() + m] == b[m]);
    }
}

proof fn lemma_conflict_kinds(oc: OnConflict, words: Seq<TokenV>)
    ensures
        kinds(conflict_items(oc, words)) == match oc {
            OnConflict::Default => Seq::<TokenV>::empty(),
            OnConflict::Agreement => seq![TokenV::At, TokenV::Agreement],
            OnConflict::LargestValue => seq![TokenV::At] + words,
        },
{
    let k = kinds(conflict_items(oc, words));
    match oc {
        OnConflict::Default => assert(k =~= Seq::<TokenV>::empty()),
        OnConflict::Agreement => assert(k =~= seq![TokenV::At, TokenV::Agreement]),
        OnConflict::LargestValue => assert(k =~= seq![TokenV::At] + words),
    }
}

proof fn lemma_p_conflicts(toks: Toks, k: int, oc: OnConflict, words: Seq<TokenV>)
    requires
        has_kinds(toks, k, kinds(conflict_items(oc, words))),
        k + kinds(conflict_items(oc, words)).len() < toks.len(),
        toks[k + kinds(conflict_items(oc, words)).len()].0 != TokenV::At,
    ensures
        words == seq![TokenV::Sticky] ==> p_bool_conflict(toks, k) == Ok::<(OnConflict, int), crate::parser::ParseErrorV>(
            (oc, k + kinds(conflict_items(oc, words)).len()),
        ),
        words == seq![TokenV::Last, TokenV::Wins] ==> p_string_conflict(toks, k) == Ok::<(OnConflict, int), crate::parser::ParseErrorV>(
            (oc, k + kinds(conflict_items(oc, words)).len()),
        ),
        words == seq![TokenV::Last, TokenV::Wins] ==> p_number_conflict(toks, k) == Ok::<(OnConflict, int), crate::parser::ParseErrorV>(
            (oc, k + kinds(conflict_items(oc, words)).len()),
        ),
        words == seq![TokenV::Highest, TokenV::Wins] ==> p_enum_conflict(toks, k) == Ok::<(OnConflict, int), crate::parser::ParseErrorV>(
            (oc, k + kinds(conflict_items(oc, words)).len()),
        ),
{
    lemma_conflict_kinds(oc, words);
    let ks = kinds(conflict_items(oc, words));
    if ks.len() > 0 {
        assert(toks[k].0 == ks[0]);
    }
    if ks.len() > 1 {
        assert(toks[k + 1].0 == ks[1]);
    }
    if ks.len() > 2 {
        assert(toks[k + 2].0 == ks[2]);
    }
}

proof fn lemma_values_kinds(vs: Seq<Seq<char>>)
    requires
        vs.len() > 0,
    ensures
        kinds(values_items(vs)).len() == 2 * vs.len() - 1,
        kinds(values_items(vs))[0] == TokenV::StringLiteral(vs[0]),
        forall|i: int| 1 <= i < vs.len() ==> kinds(values_items(vs))[2 * i - 1] == TokenV::Comma
            && #[trigger] kinds(values_items(vs))[2 * i] == TokenV::StringLiteral(vs[i]),
    decreases vs.len(),
{
    if vs.len() > 1 {
        let prev = vs.drop_last();
        lemma_values_kinds(prev);
        lemma_kinds_concat(values_items(prev), seq![tight(TokenV::Comma), spaced(TokenV::StringLiteral(vs.last()))]);
        let kp = kinds(values_items(prev));
        let k = kinds(values_items(vs));
        assert forall|i: int| 1 <= i < vs.len() implies k[2 * i - 1] == TokenV::Comma
            && #[trigger] k[2 * i] == TokenV::StringLiteral(vs[i]) by {
            if i < vs.len() - 1 {
                assert(k[2 * i - 1] == kp[2 * i - 1]);
                assert(k[2 * i] == kp[2 * i]);
                assert(prev[i] == vs[i]);
            }
        }
    }
}

proof fn lemma_p_enum_values(toks: Toks, k0: int, vs: Seq<Seq<char>>, j: int)
    requires
        1 <= j <= vs.len(),
        has_kinds(toks, k0, kinds(values_items(vs))),
        k0 + 2 * vs.len() - 1 < toks.len(),
        toks[k0 + 2 * vs.len() - 1].0 != TokenV::Comma,
    ensures
        p_enum_values(toks, k0 + 2 * j - 1, vs.take(j)) == Ok::<(Seq<Seq<char>>, int), crate::parser::ParseErrorV>(
            (vs, k0 + 2 * vs.len() - 1),
        ),
    decreases vs.len() - j,
{
    lemma_values_kinds(vs);
    let k = k0 + 2 * j - 1;
    if j == vs.len() {
        assert(vs.take(j) =~= vs);
    } else {
        let ks = kinds(values_items(vs));
        assert(toks[k0 + (2 * j - 1)].0 == ks[2 * j - 1]);
        assert(toks[k0 + 2 * j].0 == ks[2 * j]);
        assert(vs.take(j).push(vs[j]) =~= vs.take(j + 1));
        lemma_p_enum_values(toks, k0, vs, j + 1);
    }
}


proof fn lemma_field_kinds(f: FieldV)
    ensures
        kinds(field_items(f)) == seq![TokenV::Identifier(field_name(f)), TokenV::Colon] + kinds(field_body(f)) + seq![TokenV::Comma],
{
    lemma_kinds_concat(seq![name_item(f), tight(TokenV::Colon)] + field_body(f), seq![tight(TokenV::Comma)]);
    lemma_kinds_concat(seq![name_item(f), tight(TokenV::Colon)], field_body(f));
    assert(kinds(seq![name_item(f), tight(TokenV::Colon)]) =~= seq![TokenV::Identifier(field_name(f)), TokenV::Colon]);
    assert(kinds(seq![tight(TokenV::Comma)]) =~= seq![TokenV::Comma]);
}

#[verifier::rlimit(30)]
proof fn lemma_p_field_simple(toks: Toks, k: int, f: FieldV)
    requires
        field_ok(f),
        !(f is StringEnum),
        has_kinds(toks, k, kinds(field_items(f))),
    ensures
        p_field(toks, k) == Ok::<(FieldV, int), crate::parser::ParseErrorV>((f, k + kinds(field_items(f)).len() - 1)),
{
    lemma_field_kinds(f);
    let fk = kinds(field_items(f));
    let bk = kinds(field_body(f));
    let end = k + fk.len() - 1;
    assert(toks[k].0 == fk[0]);
    assert(toks[k + 1].0 == fk[1]);
    assert(toks[end].0 == fk[fk.len() - 1]);
    assert(fk =~= seq![TokenV::Identifier(field_name(f)), TokenV::Colon] + (bk + seq![TokenV::Comma]));
    lemma_has_kinds_split(toks, k, seq![TokenV::Identifier(field_name(f)), TokenV::Colon], bk + seq![TokenV::Comma]);
    lemma_has_kinds_split(toks, k + 2, bk, seq![TokenV::Comma]);
    let k2 = k + 2;
    match f {
        FieldV::Bool { name, default, on_conflict } => {
            let c = conflict_items(on_conflict, seq![TokenV::Sticky]);
            let d: Seq<Item> = if default {
                seq![spaced(TokenV::Equals), spaced(TokenV::True)]
            } else {
                Seq::empty()
            };
            lemma_kinds_concat(seq![spaced(TokenV::Bool)] + c, d);
            lemma_kinds_concat(seq![spaced(TokenV::Bool)], c);
            assert(kinds(seq![spaced(TokenV::Bool)]) =~= seq![TokenV::Bool]);
            assert(field_body(f) == seq![spaced(TokenV::Bool)] + c + d);
            assert(bk =~= seq![TokenV::Bool] + (kinds(c) + kinds(d)));
            lemma_has_kinds_split(toks, k2, seq![TokenV::Bool], kinds(c) + kinds(d));
            lemma_has_kinds_split(toks, k2 + 1, kinds(c), kinds(d));
            assert(toks[k2 + 0].0 == seq![TokenV::Bool][0]);
            assert(toks[k2].0 == TokenV::Bool);
            let k3 = k2 + 1 + kinds(c).len();
            lemma_conflict_kinds(on_conflict, seq![TokenV::Sticky]);
            if kinds(d).len() > 0 {
                assert(toks[k3].0 == kinds(d)[0]);
                assert(toks[k3 + 1].0 == kinds(d)[1]);
            }
            lemma_p_conflicts(toks, k2 + 1, on_conflict, seq![TokenV::Sticky]);
        },
        FieldV::String { name, default, on_conflict } => {
            let words = seq![TokenV::Last, TokenV::Wins];
            let c = conflict_items(on_conflict, words);
            let d = str_default_items(default);
            lemma_kinds_concat(seq![spaced(TokenV::String)] + c, d);
            lemma_kinds_concat(seq![spaced(TokenV::String)], c);
            assert(kinds(seq![spaced(TokenV::String)]) =~= seq![TokenV::String]);
            assert(field_body(f) == seq![spaced(TokenV::String)] + c + d);
            assert(bk =~= seq![TokenV::String] + (kinds(c) + kinds(d)));
            lemma_has_kinds_split(toks, k2, seq![TokenV::String], kinds(c) + kinds(d));
            lemma_has_kinds_split(toks, k2 + 1, kinds(c), kinds(d));
            assert(toks[k2 + 0].0 == seq![TokenV::String][0]);
            assert(toks[k2].0 == TokenV::String);
            let k3 = k2 + 1 + kinds(c).len();
            lemma_conflict_kinds(on_conflict, words);
            if kinds(d).len() > 0 {
                assert(toks[k3].0 == kinds(d)[0]);
                assert(toks[k3 + 1].0 == kinds(d)[1]);
            }
            lemma_p_conflicts(toks, k2 + 1, on_conflict, words);
        },
        FieldV::Number { name, default, on_conflict } => {
            let words = seq![TokenV::Last, TokenV::Wins];
            let c = conflict_items(on_conflict, words);
            let d: Seq<Item> = match default {
                Some(x) => seq![spaced(TokenV::Equals), spaced(TokenV::NumberLiteral(x))],
                None => Seq::empty(),
            };
            lemma_kinds_concat(seq![spaced(TokenV::Number)] + c, d);
            lemma_kinds_concat(seq![spaced(TokenV::Number)], c);
            assert(kinds(seq![spaced(TokenV::Number)]) =~= seq![TokenV::Number]);
            assert(field_body(f) == seq![spaced(TokenV::Number)] + c + d);
            assert(bk =~= seq![TokenV::Number] + (kinds(c) + kinds(d)));
            lemma_has_kinds_split(toks, k2, seq![TokenV::Number], kinds(c) + kinds(d));
            lemma_has_kinds_split(toks, k2 + 1, kinds(c), kinds(d));
            assert(toks[k2 + 0].0 == seq![TokenV::Number][0]);
            assert(toks[k2].0 == TokenV::Number);
            let k3 = k2 + 1 + kinds(c).len();
            lemma_conflict_kinds(on_conflict, words);
            if kinds(d).len() > 0 {
                assert(toks[k3].0 == kinds(d)[0]);
                assert(toks[k3 + 1].0 == kinds(d)[1]);
            }
            lemma_p_conflicts(toks, k2 + 1, on_conflict, words);
        },
        FieldV::StringArray { name } => {
            assert(bk =~= seq![TokenV::LeftBracket, TokenV::String, TokenV::RightBracket]);
            assert(toks[k2].0 == bk[0]);
            assert(toks[k2 + 1].0 == bk[1]);
            assert(toks[k2 + 2].0 == bk[2]);
        },
        FieldV::StringEnum { .. } => {},
    }
}


#[verifier::rlimit(30)]
proof fn lemma_p_field_enum(toks: Toks, k: int, f: FieldV)
    requires
        field_ok(f),
        f is StringEnum,
        has_kinds(toks, k, kinds(field_items(f))),
    ensures
        p_field(toks, k) == Ok::<(FieldV, int), crate::parser::ParseErrorV>((f, k + kinds(field_items(f)).len() - 1)),
{
    lemma_field_kinds(f);
    let fk = kinds(field_items(f));
    let bk = kinds(field_body(f));
    let end = k + fk.len() - 1;
    assert(toks[k].0 == fk[0]);
    assert(toks[k + 1].0 == fk[1]);
    assert(toks[end].0 == fk[fk.len() - 1]);
    assert(fk =~= seq![TokenV::Identifier(field_name(f)), TokenV::Colon] + (bk + seq![TokenV::Comma]));
    lemma_has_kinds_split(toks, k, seq![TokenV::Identifier(field_name(f)), TokenV::Colon], bk + seq![TokenV::Comma]);
    lemma_has_kinds_split(toks, k + 2, bk, seq![TokenV::Comma]);
    let k2 = k + 2;
    let name = f->StringEnum_name;
    let values = f->StringEnum_values;
    let default = f->StringEnum_default;
    let on_conflict = f->StringEnum_on_conflict;
    let words = seq![TokenV::Highest, TokenV::Wins];
    let v = values_items(values);
    let c = conflict_items(on_conflict, words);
    let d = str_default_items(default);
    let lb = seq![spaced(TokenV::LeftBracket)];
    let rb = seq![tight(TokenV::RightBracket)];
    assert(field_body(f) == lb + v + rb + c + d);
    lemma_kinds_concat(lb + v + rb + c, d);
    lemma_kinds_concat(lb + v + rb, c);
    lemma_kinds_concat(lb + v, rb);
    lemma_kinds_concat(lb, v);
    assert(kinds(lb) =~= seq![TokenV::LeftBracket]);
    assert(kinds(rb) =~= seq![TokenV::RightBracket]);
    lemma_values_kinds(values);
    let n = values.len() as int;
    let kv = kinds(v);
    assert(bk =~= seq![TokenV::LeftBracket] + (kv + (seq![TokenV::RightBracket] + (kinds(c) + kinds(d)))));
    lemma_has_kinds_split(toks, k2, seq![TokenV::LeftBracket], kv + (seq![TokenV::RightBracket] + (kinds(c) + kinds(d))));
    lemma_has_kinds_split(toks, k2 + 1, kv, seq![TokenV::RightBracket] + (kinds(c) + kinds(d)));
    lemma_has_kinds_split(toks, k2 + 1 + kv.len(), seq![TokenV::RightBracket], kinds(c) + kinds(d));
    lemma_has_kinds_split(toks, k2 + 2 + kv.len(), kinds(c), kinds(d));
    assert(toks[k2 + 0].0 == seq![TokenV::LeftBracket][0]);
    let k0 = k2 + 1;
    assert(toks[k0 + 0].0 == kv[0]);
    let kr = k0 + 2 * n - 1;
    assert(toks[k2 + 1 + kv.len() + 0].0 == seq![TokenV::RightBracket][0]);
    assert(toks[kr].0 == TokenV::RightBracket);
    lemma_p_enum_values(toks, k0, values, 1);
    assert(values.take(1) =~= seq![values[0]]);
    let k6 = kr + 1;
    let k7 = k6 + kinds(c).len();
    lemma_conflict_kinds(on_conflict, words);
    if kinds(d).len() > 0 {
        assert(toks[k7].0 == kinds(d)[0]);
        assert(toks[k7 + 1].0 == kinds(d)[1]);
    }
    lemma_p_conflicts(toks, k6, on_conflict, words);
}

/// A field reads back from its tokens, up to the comma after it.
proof fn lemma_p_field(toks: Toks, k: int, f: FieldV)
    requires
        field_ok(f),
        has_kinds(toks, k, kinds(field_items(f))),
    ensures
        p_field(toks, k) == Ok::<(FieldV, int), crate::parser::ParseErrorV>((f, k + kinds(field_items(f)).len() - 1)),
        toks[k + kinds(field_items(f)).len() - 1].0 == TokenV::Comma,
{
    lemma_field_kinds(f);
    let fk = kinds(field_items(f));
    assert(toks[k + (fk.len() - 1)].0 == fk[fk.len() - 1]);
    if f is StringEnum {
        lemma_p_field_enum(toks, k, f);
    } else {
        lemma_p_field_simple(toks, k, f);
    }
}


proof fn lemma_fields_items_prefix(fs: Seq<FieldV>, j: int)
    requires
        0 <= j <= fs.len(),
    ensures
        fields_items(fs).subrange(0, fields_items(fs.take(j)).len() as int) == fields_items(fs.take(j)),
        fields_items(fs.take(j)).len() <= fields_items(fs).len(),
    decreases fs.len() - j,
{
    if j == fs.len() {
        assert(fs.take(j) =~= fs);
    } else {
        lemma_fields_items_prefix(fs, j + 1);
        let t1 = fs.take(j + 1);
        assert(t1.drop_last() =~= fs.take(j));
        let a = fields_items(fs.take(j));
        let b = fields_items(t1);
        assert(b == a + field_items(fs[j]));
        assert(fields_items(fs).subrange(0, a.len() as int) =~= b.subrange(0, a.len() as int));
        assert(b.subrange(0, a.len() as int) =~= a);
    }
}

/// Where the tokens of field `j` start among the tokens of the fields.
pub open spec fn field_start(fs: Seq<FieldV>, j: int) -> int {
    kinds(fields_items(fs.take(j))).len() as int
}

proof fn lemma_field_at(toks: Toks, s0: int, fs: Seq<FieldV>, j: int)
    requires
        0 <= j < fs.len(),
        has_kinds(toks, s0, kinds(fields_items(fs))),
    ensures
        has_kinds(toks, s0 + field_start(fs, j), kinds(field_items(fs[j]))),
        field_start(fs, j + 1) == field_start(fs, j) + kinds(field_items(fs[j])).len(),
{
    lemma_fields_items_prefix(fs, j + 1);
    let t1 = fs.take(j + 1);
    assert(t1.drop_last() =~= fs.take(j));
    let a = fields_items(fs.take(j));
    let b = fields_items(t1);
    assert(b == a + field_items(fs[j]));
    lemma_kinds_concat(a, field_items(fs[j]));
    let fk = kinds(field_items(fs[j]));
    assert forall|m: int| 0 <= m < fk.len() implies toks[s0 + field_start(fs, j) + m].0 == #[trigger] fk[m] by {
        let idx = a.len() + m;
        assert(fields_items(fs)[idx] == b[idx]);
        assert(b[idx] == field_items(fs[j])[m]);
        assert(kinds(fields_items(fs))[idx] == fields_items(fs)[idx].1);
        assert(toks[s0 + idx].0 == kinds(fields_items(fs))[idx]);
    }
}

proof fn lemma_p_fields(toks: Toks, s0: int, fs: Seq<FieldV>, j: int)
    requires
        fields_ok(fs),
        0 <= j <= fs.len(),
        has_kinds(toks, s0, kinds(fields_items(fs)) + seq![TokenV::RightBrace]),
    ensures
        p_fields(toks, s0 + field_start(fs, j), fs.take(j)) == Ok::<(Seq<FieldV>, int), crate::parser::ParseErrorV>(
            (fs, s0 + field_start(fs, fs.len() as int)),
        ),
    decreases fs.len() - j,
{
    let all = kinds(fields_items(fs));
    lemma_has_kinds_split(toks, s0, all, seq![TokenV::RightBrace]);
    if j == fs.len() {
        assert(fs.take(j) =~= fs);
        assert(field_start(fs, j) == all.len());
        assert(toks[s0 + all.len() + 0].0 == seq![TokenV::RightBrace][0]);
    } else {
        let f = fs[j];
        assert(field_ok(f));
        lemma_field_at(toks, s0, fs, j);
        let k = s0 + field_start(fs, j);
        lemma_p_field(toks, k, f);
        lemma_field_kinds(f);
        assert(toks[k + 0].0 == kinds(field_items(f))[0]);
        let k2 = k + kinds(field_items(f)).len() - 1;
        assert(!has_field_named(fs.take(j), field_name(f))) by {
            if has_field_named(fs.take(j), field_name(f)) {
                let i = choose|i: int| 0 <= i < fs.take(j).len() && field_name(#[trigger] fs.take(j)[i]) == field_name(f);
                assert(fs.take(j)[i] == fs[i]);
                assert(field_name(fs[i]) != field_name(fs[j]));
            }
        }
        lemma_fields_items_prefix(fs, j + 1);
        assert(field_start(fs, j + 1) <= all.len());
        assert(fs.take(j).push(f) =~= fs.take(j + 1));
        lemma_p_fields(toks, s0, fs, j + 1);
    }
}

proof fn lemma_name_kinds(segs: Seq<Seq<char>>)
    requires
        segs.len() > 0,
    ensures
        kinds(name_items(segs)).len() == 2 * segs.len() - 1,
        kinds(name_items(segs))[0] == TokenV::Identifier(segs[0]),
        forall|i: int| 1 <= i < segs.len() ==> kinds(name_items(segs))[2 * i - 1] == TokenV::DoubleColon
            && #[trigger] kinds(name_items(segs))[2 * i] == TokenV::Identifier(segs[i]),
    decreases segs.len(),
{
    if segs.len() > 1 {
        let prev = segs.drop_last();
        lemma_name_kinds(prev);
        lemma_kinds_concat(name_items(prev), seq![tight(TokenV::DoubleColon), tight(TokenV::Identifier(segs.last()))]);
        let kp = kinds(name_items(prev));
        let k = kinds(name_items(segs));
        assert forall|i: int| 1 <= i < segs.len() implies k[2 * i - 1] == TokenV::DoubleColon
            && #[trigger] k[2 * i] == TokenV::Identifier(segs[i]) by {
            if i < segs.len() - 1 {
                assert(k[2 * i - 1] == kp[2 * i - 1]);
                assert(k[2 * i] == kp[2 * i]);
                assert(prev[i] == segs[i]);
            }
        }
    }
}

proof fn lemma_p_name_rest(toks: Toks, k0: int, segs: Seq<Seq<char>>, j: int)
    requires
        1 <= j <= segs.len(),
        has_kinds(toks, k0, kinds(name_items(segs))),
        k0 + 2 * segs.len() - 1 < toks.len(),
        toks[k0 + 2 * segs.len() - 1].0 != TokenV::DoubleColon,
    ensures
        p_name_rest(toks, k0 + 2 * j - 1, joined(segs.take(j))) == Ok::<(Seq<char>, int), crate::parser::ParseErrorV>(
            (joined(segs), k0 + 2 * segs.len() - 1),
        ),
    decreases segs.len() - j,
{
    reveal_strlit("::");
    lemma_name_kinds(segs);
    if j == segs.len() {
        assert(segs.take(j) =~= segs);
    } else {
        let ks = kinds(name_items(segs));
        assert(toks[k0 + (2 * j - 1)].0 == ks[2 * j - 1]);
        assert(toks[k0 + 2 * j].0 == ks[2 * j]);
        let t1 = segs.take(j + 1);
        assert(t1.drop_last() =~= segs.take(j));
        assert(t1.last() == segs[j]);
        assert(joined(t1) =~= joined(segs.take(j)) + "::"@ + segs[j]);
        lemma_p_name_rest(toks, k0, segs, j + 1);
    }
}

/// The tokens of a policy type parse back to it.
proof fn lemma_p_policy_type(toks: Toks, segs: Seq<Seq<char>>, pt: PolicyTypeV)
    requires
        segs_ok(segs),
        pt.name == joined(segs),
        fields_ok(pt.fields),
        toks.len() == kinds(type_items(segs, pt.fields)).len(),
        forall|m: int| 0 <= m < toks.len() ==> toks[m].0 == #[trigger] kinds(type_items(segs, pt.fields))[m],
    ensures
        p_policy_type(toks) == Ok::<PolicyTypeV, crate::parser::ParseErrorV>(pt),
{
    let fs = pt.fields;
    let a = seq![tight(TokenV::Type)];
    let n = name_items(segs);
    let b = seq![spaced(TokenV::LeftBrace)];
    let f = fields_items(fs);
    let c = seq![(seq!['\n'], TokenV::RightBrace)];
    lemma_kinds_concat(a + n + b + f, c);
    lemma_kinds_concat(a + n + b, f);
    lemma_kinds_concat(a + n, b);
    lemma_kinds_concat(a, n);
    let all = kinds(type_items(segs, fs));
    assert(kinds(a) =~= seq![TokenV::Type]);
    assert(kinds(b) =~= seq![TokenV::LeftBrace]);
    assert(kinds(c) =~= seq![TokenV::RightBrace]);
    let kn = kinds(n);
    let kf = kinds(f);
    let ln: int = kn.len() as int;
    let lf: int = kf.len() as int;
    assert(all =~= seq![TokenV::Type] + (kn + (seq![TokenV::LeftBrace] + (kf + seq![TokenV::RightBrace]))));
    assert(has_kinds(toks, 0, all));
    lemma_has_kinds_split(toks, 0, seq![TokenV::Type], kn + (seq![TokenV::LeftBrace] + (kf + seq![TokenV::RightBrace])));
    lemma_has_kinds_split(toks, 1, kn, seq![TokenV::LeftBrace] + (kf + seq![TokenV::RightBrace]));
    lemma_has_kinds_split(toks, 1 + ln, seq![TokenV::LeftBrace], kf + seq![TokenV::RightBrace]);
    lemma_has_kinds_split(toks, 2 + ln, kf, seq![TokenV::RightBrace]);
    assert(toks[0int + 0].0 == seq![TokenV::Type][0]);
    lemma_name_kinds(segs);
    let ns = segs.len() as int;
    assert(toks[1int + 0].0 == kn[0]);
    assert(toks[1 + ln + 0].0 == seq![TokenV::LeftBrace][0]);
    lemma_p_name_rest(toks, 1, segs, 1);
    assert(segs.take(1) =~= seq![segs[0]]);
    assert(joined(seq![segs[0]]) == segs[0]);
    let s0: int = 2 + ln;
    lemma_p_fields(toks, s0, fs, 0);
    assert(fs.take(0) =~= Seq::<FieldV>::empty());
    assert(field_start(fs, 0) == 0) by {
        assert(fs.take(0) =~= Seq::<FieldV>::empty());
    }
    assert(fs.take(fs.len() as int) =~= fs);
    assert(field_start(fs, fs.len() as int) == kf.len());
    assert(toks[s0 + lf + 0].0 == seq![TokenV::RightBrace][0]);
}


// ------------------------------------------------------------------ the law

/// Displaying a policy type and parsing the text gives the policy type back,
/// for every policy type the language can write: its name is identifiers
/// joined by `::`, its fields have distinct identifier names, strings that
/// `Debug` writes escaping nothing but double quotes and backslashes (see
/// `plain`), at least one value for an enum, and number defaults written as number
/// literals in the shortest form that displaying a number gives.
pub proof fn law_display_parse_roundtrip(pt: PolicyTypeV, segs: Seq<Seq<char>>)
    requires
        segs_ok(segs),
        pt.name == joined(segs),
        fields_ok(pt.fields),
    ensures
        parse_spec(trimmed(policy_type_text(pt))) == Ok::<PolicyTypeV, crate::parser::ParseErrorV>(pt),
{
    reveal_strlit("type ");
    reveal_strlit("}");
    let fs = pt.fields;
    assert forall|i: int| 0 <= i < fs.len() implies field_strings_plain(#[trigger] fs[i]) by {
        assert(field_ok(fs[i]));
    }
    lemma_type_text(segs, pt);
    let items = type_items(segs, fs);
    let text = policy_type_text(pt);
    assert(text == render(items));
    assert(text[0] == 't');
    assert(text.last() == '}');
    assert(skip_ws(text, 0) == 0);
    assert(trim_end(text, text.len() as int) == text.len());
    assert(trimmed(text) =~= text);
    lemma_type_items_ok(segs, fs);
    assert(items.take(0) =~= Seq::<Item>::empty());
    assert(offset(items, 0) == 0);
    lemma_lex_items(items, 0);
    let toks = lex(text, 0)->Ok_0;
    assert(tokenize_spec(text) == Ok::<Seq<(TokenV, crate::parser::Position)>, crate::parser::ParseErrorV>(toks));
    assert forall|m: int| 0 <= m < toks.len() implies toks[m].0 == #[trigger] kinds(items)[m] by {
        assert(toks[m].0 == items[0 + m].1);
    }
    lemma_p_policy_type(toks, segs, pt);
}

/// A string literal written with a backslash before each double quote and
/// each backslash of a string reads back as that string: reading from the
/// opening quote gives the string and ends just after the closing quote.
pub proof fn law_escaped_string_reads_back(s: Seq<char>, open: int, v: Seq<char>)
    requires
        0 <= open,
        open + 1 + escape_plain(v).len() < s.len(),
        s[open] == '"',
        s.subrange(open + 1, open + 1 + escape_plain(v).len()) == escape_plain(v),
        s[open + 1 + escape_plain(v).len()] == '"',
    ensures
        string_lit(s, open + 1, false, Seq::empty(), open) == Ok::<(Seq<char>, int), crate::parser::ParseErrorV>(
            (v, open + escape_plain(v).len() + 2),
        ),
{
    lemma_string_lit(s, open + 1, v, Seq::empty(), open);
    assert(Seq::<char>::empty() + v =~= v);
}

} // verus!
