//! The text form of a row of cards: rendering for display and for the wire,
//! and reading a hand snapshot back.
//!
//! Rendering writes each slot as `<index>: <letter><value>, ` with the value
//! replaced by `?` when values are hidden and the card is hidden. Reading
//! splits on `,`, takes the field between the first and second `:` of each
//! piece, reads its first two bytes as the color and the rest as the value.

use vstd::prelude::*;
use crate::card::{Card, CardStatus, Color};
use crate::text::{append_dec, dec, parse_u32, parse_u32_spec};
use colored::Colorize;

verus! {

/// Splits `s` at each `sep` byte; the result always holds at least one piece.
pub open spec fn split(s: Seq<u8>, sep: u8) -> Seq<Seq<u8>>
    decreases s.len(),
{
    if s.len() == 0 {
        seq![Seq::empty()]
    } else {
        let r = split(s.drop_last(), sep);
        if s.last() == sep {
            r.push(Seq::empty())
        } else {
            r.update(r.len() - 1, r.last().push(s.last()))
        }
    }
}

pub proof fn lemma_split_len(s: Seq<u8>, sep: u8)
    ensures
        split(s, sep).len() >= 1,
    decreases s.len(),
{
    if s.len() > 0 {
        lemma_split_len(s.drop_last(), sep);
    }
}

/// An ASCII whitespace byte, as `char::is_whitespace` counts them.
pub open spec fn is_space_byte(c: u8) -> bool {
    c == 32 || (9 <= c <= 13)
}

/// A byte that continues a multi-byte UTF-8 character.
pub open spec fn is_continuation(c: u8) -> bool {
    128 <= c < 192
}

/// The color written by two bytes: white when they trim to `W`, black otherwise.
pub open spec fn color_of(a: u8, b: u8) -> Color {
    if (a == 87 && is_space_byte(b)) || (is_space_byte(a) && b == 87) {
        Color::WHITE
    } else {
        Color::BLACK
    }
}

/// The card written by one field: two bytes of color, then the value. A
/// value that does not read gives no card, or, with `keep_unread`, a hidden
/// card of value 0 (how an opponent's `?` is read back).
pub open spec fn card_of_field(f: Seq<u8>, keep_unread: bool) -> Option<Card> {
    if f.len() >= 2 && (f.len() == 2 || !is_continuation(f[2])) {
        match parse_u32_spec(f.subrange(2, f.len() as int)) {
            Some(v) => Some(Card { color: color_of(f[0], f[1]), value: v, status: CardStatus::HIDDEN }),
            None => if keep_unread {
                Some(Card { color: color_of(f[0], f[1]), value: 0, status: CardStatus::HIDDEN })
            } else {
                None
            },
        }
    } else {
        None
    }
}

/// The card written by one comma-separated piece: its field after the first `:`.
pub open spec fn card_of_token(t: Seq<u8>, keep_unread: bool) -> Option<Card> {
    let parts = split(t, 58);
    if parts.len() >= 2 {
        card_of_field(parts[1], keep_unread)
    } else {
        None
    }
}

/// The cards written by a sequence of pieces; pieces that write none are skipped.
pub open spec fn cards_of_tokens(ts: Seq<Seq<u8>>, keep_unread: bool) -> Seq<Card>
    decreases ts.len(),
{
    if ts.len() == 0 {
        Seq::empty()
    } else {
        let r = cards_of_tokens(ts.drop_last(), keep_unread);
        match card_of_token(ts.last(), keep_unread) {
            Some(c) => r.push(c),
            None => r,
        }
    }
}

/// The cards of a hand snapshot, in the order written.
pub open spec fn hand_of_bytes(s: Seq<u8>, keep_unread: bool) -> Seq<Card> {
    cards_of_tokens(split(s, 44), keep_unread)
}

/// Reads the card written in `b[lo..hi]`.
fn card_in_field(b: &[u8], lo: usize, hi: usize, keep_unread: bool) -> (r: Option<Card>)
    requires
        lo <= hi <= b@.len(),
    ensures
        r == card_of_field(b@.subrange(lo as int, hi as int), keep_unread),
{
    let ghost f = b@.subrange(lo as int, hi as int);
    if hi - lo < 2 {
        return None;
    }
    if hi - lo > 2 && b[lo + 2] >= 128 && b[lo + 2] < 192 {
        return None;
    }
    assert(f.subrange(2, f.len() as int) =~= b@.subrange(lo + 2, hi as int));
    let a = b[lo];
    let c = b[lo + 1];
    let a_space = a == 32 || (9 <= a && a <= 13);
    let c_space = c == 32 || (9 <= c && c <= 13);
    let color = if (a == 87 && c_space) || (a_space && c == 87) {
        Color::WHITE
    } else {
        Color::BLACK
    };
    match parse_u32(b, lo + 2, hi) {
        Some(v) => Some(Card::new(v, color)),
        None => if keep_unread {
            Some(Card::new(0, color))
        } else {
            None
        },
    }
}

proof fn lemma_cards_of_tokens_push(s: Seq<Seq<u8>>, t: Seq<u8>, keep_unread: bool)
    ensures
        cards_of_tokens(s.push(t), keep_unread) == match card_of_token(t, keep_unread) {
            Some(c) => cards_of_tokens(s, keep_unread).push(c),
            None => cards_of_tokens(s, keep_unread),
        },
{
    assert(s.push(t).drop_last() =~= s);
}

/// Reads the cards written in `b`, in the order written.
pub fn hand_from_bytes(b: &[u8], keep_unread: bool) -> (r: Vec<Card>)
    ensures
        r@ == hand_of_bytes(b@, keep_unread),
{
    let mut deck: Vec<Card> = Vec::new();
    let ghost mut done: Seq<Seq<u8>> = Seq::empty();
    let mut tstart: usize = 0;
    let mut colons: usize = 0;
    let mut fs: usize = 0;
    let mut fe: usize = 0;
    let mut i: usize = 0;
    assert(b@.subrange(0, 0) =~= Seq::<u8>::empty());
    assert(b@.subrange(0, 0) =~= b@.subrange(tstart as int, 0));
    proof {
        lemma_split_len(Seq::empty(), 58);
    }
    while i < b.len()
        invariant
            tstart <= i <= b@.len(),
            split(b@.subrange(0, i as int), 44) == done.push(b@.subrange(tstart as int, i as int)),
            deck@ == cards_of_tokens(done, keep_unread),
            colons <= 2,
            ({
                let parts = split(b@.subrange(tstart as int, i as int), 58);
                &&& parts.len() >= 1
                &&& (colons == 0 <==> parts.len() == 1)
                &&& (colons == 1 <==> parts.len() == 2)
                &&& (colons == 1 ==> tstart <= fs <= i && parts[1] == b@.subrange(fs as int, i as int))
                &&& (colons == 2 ==> tstart <= fs <= fe <= i && parts[1] == b@.subrange(fs as int, fe as int))
            }),
        decreases b@.len() - i,
    {
        let c = b[i];
        let ghost cur = b@.subrange(tstart as int, i as int);
        let ghost cur2 = b@.subrange(tstart as int, i + 1);
        assert(b@.subrange(0, i + 1).drop_last() =~= b@.subrange(0, i as int));
        assert(cur2.drop_last() =~= cur);
        proof {
            lemma_split_len(cur, 58);
        }
        assert(b@.subrange(0, i + 1).last() == c);
        if c == 44 {
            assert(split(b@.subrange(0, i + 1), 44) == done.push(cur).push(Seq::empty()));
            let card = if colons == 1 {
                card_in_field(b, fs, i, keep_unread)
            } else if colons == 2 {
                card_in_field(b, fs, fe, keep_unread)
            } else {
                None
            };
            proof {
                lemma_cards_of_tokens_push(done, cur, keep_unread);
            }
            match card {
                Some(k) => deck.push(k),
                None => {},
            }
            proof {
                done = done.push(cur);
            }
            tstart = i + 1;
            colons = 0;
            assert(b@.subrange(tstart as int, i + 1) =~= Seq::<u8>::empty());
        } else {
            assert(cur.push(c) =~= cur2);
            assert(done.push(cur).update(done.len() as int, cur2) =~= done.push(cur2));
            if c == 58 {
                if colons == 0 {
                    fs = i + 1;
                    colons = 1;
                    assert(b@.subrange(fs as int, i + 1) =~= Seq::<u8>::empty());
                } else if colons == 1 {
                    fe = i;
                    colons = 2;
                }
            } else {
                if colons == 1 {
                    assert(b@.subrange(fs as int, i + 1) =~= b@.subrange(fs as int, i as int).push(c));
                }
            }
        }
        i = i + 1;
    }
    let ghost cur = b@.subrange(tstart as int, i as int);
    proof {
        lemma_split_len(cur, 58);
    }
    let card = if colons == 1 {
        card_in_field(b, fs, i, keep_unread)
    } else if colons == 2 {
        card_in_field(b, fs, fe, keep_unread)
    } else {
        None
    };
    proof {
        lemma_cards_of_tokens_push(done, cur, keep_unread);
        assert(b@.subrange(0, i as int) =~= b@);
    }
    match card {
        Some(k) => deck.push(k),
        None => {},
    }
    deck
}

/// Reads a hand snapshot as shown to an opponent: a `?` value gives a
/// hidden card of value 0.
pub fn deck_from_str(deck_str: String) -> (r: Vec<Card>)
    ensures
        r@ == hand_of_bytes(vstd::utf8::encode_utf8(deck_str@), true),
{
    hand_from_bytes(deck_str.as_str().as_bytes(), true)
}

/// The letter that shows a color.
pub open spec fn color_letter(c: Color) -> char {
    match c {
        Color::BLACK => 'B',
        Color::WHITE => 'W',
    }
}

/// The text of a card's value: `?` when values are hidden and the card is hidden.
pub open spec fn value_text(c: Card, hide_values: bool) -> Seq<char> {
    if hide_values && c.status == CardStatus::HIDDEN {
        seq!['?']
    } else {
        dec(c.value as nat)
    }
}

/// The text of slot `i` holding card `c`.
pub open spec fn slot_text(i: nat, c: Card, hide_values: bool) -> Seq<char> {
    dec(i) + seq![':', ' ', color_letter(c.color)] + value_text(c, hide_values) + seq![',', ' ']
}

/// The text of a row of cards, slot after slot.
pub open spec fn render(s: Seq<Card>, hide_values: bool) -> Seq<char>
    decreases s.len(),
{
    if s.len() == 0 {
        Seq::empty()
    } else {
        render(s.drop_last(), hide_values) + slot_text((s.len() - 1) as nat, s.last(), hide_values)
    }
}

/// Whether rendering shows a value in color: values hidden and some card revealed.
pub open spec fn shows_painted_value(s: Seq<Card>, hide_values: bool) -> bool {
    hide_values && (exists|i: int| 0 <= i < s.len() && (#[trigger] s[i]).status == CardStatus::REVEALED)
}

/// Only ASCII digits.
pub open spec fn digit_text(s: Seq<char>) -> bool {
    s.len() > 0 && forall|i: int| 0 <= i < s.len() ==> '0' <= #[trigger] s[i] <= '9'
}

/// The terminal sequence that starts a foreground color with code `a b`.
pub open spec fn ansi_start(a: char, b: char) -> Seq<char> {
    seq!['\x1b', '[', a, b, 'm']
}

/// The terminal sequence that ends a style.
pub open spec fn ansi_reset() -> Seq<char> {
    seq!['\x1b', '[', '0', 'm']
}

/// Relies on `colored`'s `Colorize::blue` shown through `Display`: the text
/// either as it is (coloring off) or wrapped in the blue start and the reset.
#[verifier::external_body]
fn paint_blue(s: &str) -> (r: String)
    requires
        digit_text(s@),
    ensures
        r@ == s@ || r@ == ansi_start('3', '4') + s@ + ansi_reset(),
{
    format!("{}", s.blue())
}

/// Relies on `colored`'s `Colorize::yellow` shown through `Display`: the text
/// either as it is (coloring off) or wrapped in the yellow start and the reset.
#[verifier::external_body]
fn paint_yellow(s: &str) -> (r: String)
    requires
        digit_text(s@),
    ensures
        r@ == s@ || r@ == ansi_start('3', '3') + s@ + ansi_reset(),
{
    format!("{}", s.yellow())
}

proof fn lemma_dec_digits(n: nat)
    ensures
        digit_text(dec(n)),
    decreases n,
{
    if n >= 10 {
        lemma_dec_digits(n / 10);
    }
}

/// The start of the terminal color that shows a card color: blue for
/// black, yellow for white.
pub open spec fn paint_start(c: Color) -> Seq<char> {
    match c {
        Color::BLACK => ansi_start('3', '4'),
        Color::WHITE => ansi_start('3', '3'),
    }
}

/// Whether the value of `c` is offered in color: coloring asked for,
/// values hidden, and the card revealed.
pub open spec fn painted(c: Card, hide_values: bool, colorize: bool) -> bool {
    colorize && hide_values && c.status == CardStatus::REVEALED
}

/// The text of a card's value when `styled` says whether an offered color
/// was applied: the plain text, or the value wrapped in its color and the reset.
pub open spec fn styled_value(c: Card, hide_values: bool, colorize: bool, styled: bool) -> Seq<char> {
    if painted(c, hide_values, colorize) && styled {
        paint_start(c.color) + dec(c.value as nat) + ansi_reset()
    } else {
        value_text(c, hide_values)
    }
}

/// The text of slot `i`, with `styled` as in `styled_value`.
pub open spec fn styled_slot(i: nat, c: Card, hide_values: bool, colorize: bool, styled: bool) -> Seq<char> {
    dec(i) + seq![':', ' ', color_letter(c.color)] + styled_value(c, hide_values, colorize, styled) + seq![',', ' ']
}

/// The text of a row of cards where `styles[i]` says whether slot `i`'s
/// offered color was applied.
pub open spec fn render_styled(s: Seq<Card>, hide_values: bool, colorize: bool, styles: Seq<bool>) -> Seq<char>
    decreases s.len(),
{
    if s.len() == 0 {
        Seq::empty()
    } else {
        render_styled(s.drop_last(), hide_values, colorize, styles.drop_last())
            + styled_slot((s.len() - 1) as nat, s.last(), hide_values, colorize, styles.last())
    }
}

/// Renders a row of cards. With `hide_values`, hidden values show as `?`. With
/// `colorize`, revealed values under `hide_values` may carry terminal colors,
/// when the terminal coloring is on.
pub fn render_cards(cards: &Vec<Card>, hide_values: bool, colorize: bool) -> (r: String)
    ensures
        !colorize || !shows_painted_value(cards@, hide_values) ==> r@ == render(cards@, hide_values),
        exists|styles: Seq<bool>| styles.len() == cards@.len()
            && r@ == #[trigger] render_styled(cards@, hide_values, colorize, styles),
{
    let mut out = String::new();
    let mut i: usize = 0;
    let ghost mut styles: Seq<bool> = Seq::empty();
    while i < cards.len()
        invariant
            i <= cards@.len(),
            !colorize || !shows_painted_value(cards@, hide_values) ==> out@ == render(cards@.subrange(0, i as int), hide_values),
            styles.len() == i,
            out@ == render_styled(cards@.subrange(0, i as int), hide_values, colorize, styles),
        decreases cards@.len() - i,
    {
        let ghost mut styled = false;
        let c = cards[i];
        let ghost before = out@;
        proof {
            reveal_strlit(": B");
            reveal_strlit(": W");
            reveal_strlit("?");
            reveal_strlit(", ");
        }
        append_dec(&mut out, i as u64);
        match c.color {
            Color::BLACK => out.append(": B"),
            Color::WHITE => out.append(": W"),
        }
        if hide_values && c.status == CardStatus::HIDDEN {
            out.append("?");
        } else if hide_values && colorize {
            let v = crate::text::dec_string(c.value as u64);
            proof {
                lemma_dec_digits(c.value as nat);
                assert(cards@[i as int].status == CardStatus::REVEALED);
                assert(shows_painted_value(cards@, hide_values));
            }
            let painted = match c.color {
                Color::BLACK => paint_blue(v.as_str()),
                Color::WHITE => paint_yellow(v.as_str()),
            };
            proof {
                styled = painted@ != v@;
            }
            out.append(painted.as_str());
        } else {
            append_dec(&mut out, c.value as u64);
        }
        out.append(", ");
        proof {
            let s = cards@.subrange(0, i + 1);
            assert(s.drop_last() =~= cards@.subrange(0, i as int));
            assert(!colorize || !shows_painted_value(cards@, hide_values) ==> out@ =~= before + slot_text(i as nat, c, hide_values));
            assert(out@ =~= before + styled_slot(i as nat, c, hide_values, colorize, styled));
            assert(styles.push(styled).drop_last() =~= styles);
            styles = styles.push(styled);
        }
        i = i + 1;
    }
    assert(cards@.subrange(0, i as int) =~= cards@);
    assert(out@ == render_styled(cards@, hide_values, colorize, styles));
    out
}

/// The character doubled in a section marker: `##`, `**`, `++` or `||`.
pub open spec fn marker_of(pattern: Seq<char>) -> Option<char> {
    if pattern.len() == 2 && pattern[0] == pattern[1]
        && (pattern[0] == '#' || pattern[0] == '*' || pattern[0] == '+' || pattern[0] == '|') {
        Some(pattern[0])
    } else {
        None
    }
}

/// `s[p..q + 2]` is a section: the marker `m m`, at least one character
/// other than `m`, then `m m`.
pub open spec fn section_at(s: Seq<char>, m: char, p: int, q: int) -> bool {
    &&& 0 <= p && p + 2 < q && q + 1 < s.len()
    &&& s[p] == m && s[p + 1] == m && s[q] == m && s[q + 1] == m
    &&& forall|i: int| p + 2 <= i < q ==> s[i] != m
}

/// The section is the leftmost one.
pub open spec fn first_section(s: Seq<char>, m: char, p: int, q: int) -> bool {
    section_at(s, m, p, q) && forall|pe: int, qe: int| pe < p ==> !#[trigger] section_at(s, m, pe, qe)
}

fn marker_char(pattern: &str) -> (r: Option<char>)
    ensures
        r == marker_of(pattern@),
{
    if pattern.unicode_len() != 2 {
        return None;
    }
    let a = pattern.get_char(0);
    let b = pattern.get_char(1);
    if a == b && (a == '#' || a == '*' || a == '+' || a == '|') {
        Some(a)
    } else {
        None
    }
}

/// The characters of `s`.
fn chars_of(s: &str) -> (r: Vec<char>)
    ensures
        r@ == s@,
{
    let n = s.unicode_len();
    let mut r: Vec<char> = Vec::new();
    let mut i: usize = 0;
    while i < n
        invariant
            i <= n,
            n == s@.len(),
            r@ == s@.subrange(0, i as int),
        decreases n - i,
    {
        r.push(s.get_char(i));
        i = i + 1;
        assert(r@ =~= s@.subrange(0, i as int));
    }
    assert(s@.subrange(0, i as int) =~= s@);
    r
}

/// The text of the first section of `input` marked by `pattern` (one of
/// `##`, `**`, `++`, `||`), without its markers; `None` when there is no
/// such section or the pattern is none of these.
pub fn parse_responses(input: &str, pattern: &str) -> (r: Option<String>)
    ensures
        marker_of(pattern@) is None ==> r is None,
        marker_of(pattern@) is Some ==> match r {
            Some(t) => exists|p: int, q: int|
                first_section(input@, marker_of(pattern@)->0, p, q) && t@ == #[trigger] input@.subrange(p + 2, q),
            None => forall|p: int, q: int| !#[trigger] section_at(input@, marker_of(pattern@)->0, p, q),
        },
{
    let m = match marker_char(pattern) {
        Some(m) => m,
        None => {
            return None;
        },
    };
    let cs = chars_of(input);
    let n = cs.len();
    let mut p: usize = 0;
    while n >= 5 && p <= n - 5
        invariant
            n == cs@.len(),
            cs@ == input@,
            marker_of(pattern@) == Some(m),
            forall|pe: int, qe: int| pe < p ==> !#[trigger] section_at(input@, m, pe, qe),
        decreases n - p,
    {
        if cs[p] == m && cs[p + 1] == m {
            let mut q = p + 2;
            while q < n && cs[q] != m
                invariant
                    p + 2 <= q <= n,
                    n == cs@.len(),
                    forall|i: int| p + 2 <= i < q ==> cs@[i] != m,
                decreases n - q,
            {
                q = q + 1;
            }
            if q > p + 2 && q < n - 1 && cs[q + 1] == m {
                assert(section_at(input@, m, p as int, q as int));
                assert(first_section(input@, m, p as int, q as int));
                let t = input.substring_char(p + 2, q).to_owned();
                return Some(t);
            }
            assert forall|qe: int| !#[trigger] section_at(input@, m, p as int, qe) by {
                if section_at(input@, m, p as int, qe) {
                    if qe < q {
                        assert(cs@[qe] != m);
                    } else if qe > q {
                        assert(cs@[q as int] != m);
                    }
                }
            }
        } else {
            assert forall|qe: int| !#[trigger] section_at(input@, m, p as int, qe) by {}
        }
        p = p + 1;
    }
    assert forall|pe: int, qe: int| !#[trigger] section_at(input@, m, pe, qe) by {
        if section_at(input@, m, pe, qe) {
            assert(pe < p);
        }
    }
    None
}

} // verus!
