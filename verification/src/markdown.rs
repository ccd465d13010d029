//! Markdown rendering that keeps LaTeX formulas intact: formulas are swapped
//! for placeholders before the Markdown renderer runs and put back afterwards.
use vstd::prelude::*;

use crate::text::{
    chars_of, decimal, decimal_string, push_char, replace_all, replaced, string_of,
    occurs_at,
};

verus! {

/// The four formula notations that are protected.
#[derive(Clone, Copy, Debug, PartialEq, Eq, Structural)]
pub enum Delimiter {
    /// `$...$`, an inline formula.
    Dollar,
    /// `\(...\)`, an inline formula.
    Paren,
    /// `$$...$$`, a display formula.
    DoubleDollar,
    /// `\[...\]`, a display formula.
    Bracket,
}

/// Whether formulas of this notation are display formulas.
pub open spec fn is_display(d: Delimiter) -> bool {
    d == Delimiter::DoubleDollar || d == Delimiter::Bracket
}

/// The character whose every occurrence a formula of this notation starts with.
pub open spec fn opening_char(d: Delimiter) -> char {
    match d {
        Delimiter::Dollar | Delimiter::DoubleDollar => '$',
        Delimiter::Paren | Delimiter::Bracket => '\\',
    }
}

/// The first index at or after `k` that holds `$`, or `t.len()` when there is none.
pub open spec fn next_dollar(t: Seq<char>, k: int) -> int
    decreases t.len() - k,
{
    if k < 0 || k >= t.len() {
        t.len() as int
    } else if t[k] == '$' {
        k
    } else {
        next_dollar(t, k + 1)
    }
}

/// The first index `m` at or after `k` where `t[m..m+2]` is a backslash followed by
/// `close`, or `t.len()` when there is none.
pub open spec fn next_close(t: Seq<char>, k: int, close: char) -> int
    decreases t.len() - k,
{
    if k < 0 || k + 1 >= t.len() {
        t.len() as int
    } else if t[k] == '\\' && t[k + 1] == close {
        k
    } else {
        next_close(t, k + 1, close)
    }
}

/// No line feed lies in `t[a..b]`.
pub open spec fn no_newline(t: Seq<char>, a: int, b: int) -> bool {
    forall|p: int| a <= p < b ==> t[p] != '\n'
}

/// A formula of notation `d` that starts at index `i` of `t`, as
/// `(end, content_start, content_end)`: the pattern `\$([^\$]+?)\$`,
/// `\\\((.+?)\\\)`, `\$\$([^\$]+?)\$\$` or `\\\[(.+?)\\\]` matched at `i`
/// (`.` matches anything but a line feed; `+?` takes as little as it can).
pub open spec fn formula_at(t: Seq<char>, d: Delimiter, i: int) -> Option<(int, int, int)> {
    if i < 0 || i >= t.len() {
        None
    } else {
        match d {
            Delimiter::Dollar => {
                let j = next_dollar(t, i + 1);
                if t[i] == '$' && j < t.len() && j >= i + 2 {
                    Some((j + 1, i + 1, j))
                } else {
                    None
                }
            },
            Delimiter::DoubleDollar => {
                let j = next_dollar(t, i + 2);
                if i + 1 < t.len() && t[i] == '$' && t[i + 1] == '$' && j + 1 < t.len() && j >= i
                    + 3 && t[j + 1] == '$' {
                    Some((j + 2, i + 2, j))
                } else {
                    None
                }
            },
            Delimiter::Paren => {
                let j = next_close(t, i + 3, ')');
                if i + 1 < t.len() && t[i] == '\\' && t[i + 1] == '(' && j < t.len() && no_newline(
                    t,
                    i + 2,
                    j,
                ) {
                    Some((j + 2, i + 2, j))
                } else {
                    None
                }
            },
            Delimiter::Bracket => {
                let j = next_close(t, i + 3, ']');
                if i + 1 < t.len() && t[i] == '\\' && t[i + 1] == '[' && j < t.len() && no_newline(
                    t,
                    i + 2,
                    j,
                ) {
                    Some((j + 2, i + 2, j))
                } else {
                    None
                }
            },
        }
    }
}

/// The leftmost formula of notation `d` starting at or after `k`, as
/// `(start, end, content_start, content_end)`.
pub open spec fn leftmost_formula(t: Seq<char>, d: Delimiter, k: int) -> Option<(int, int, int, int)>
    decreases t.len() - k,
{
    if k < 0 || k >= t.len() {
        None
    } else {
        match formula_at(t, d, k) {
            Some(m) => Some((k, m.0, m.1, m.2)),
            None => leftmost_formula(t, d, k + 1),
        }
    }
}

/// How often `c` occurs in `s`.
pub open spec fn count_char(s: Seq<char>, c: char) -> nat
    decreases s.len(),
{
    if s.len() == 0 {
        0
    } else {
        count_char(s.drop_last(), c) + if s.last() == c {
            1nat
        } else {
            0nat
        }
    }
}

/// The name a formula is stored under: `LATEX_FORMULA_` and a decimal number.
pub open spec fn placeholder_name(id: nat) -> Seq<char> {
    "LATEX_FORMULA_"@ + decimal(id)
}

/// The placeholder text that stands in the document for a formula: the name in braces.
pub open spec fn placeholder_token(name: Seq<char>) -> Seq<char> {
    seq!['{'] + name + seq!['}']
}

/// What is stored for a formula: its content, marked with `DISPLAY:` for display formulas.
pub open spec fn stored_formula(d: Delimiter, content: Seq<char>) -> Seq<char> {
    if is_display(d) {
        "DISPLAY:"@ + content
    } else {
        content
    }
}

pub proof fn lemma_count_concat(a: Seq<char>, b: Seq<char>, c: char)
    ensures
        count_char(a + b, c) == count_char(a, c) + count_char(b, c),
    decreases b.len(),
{
    if b.len() == 0 {
        assert(a + b =~= a);
    } else {
        lemma_count_concat(a, b.drop_last(), c);
        assert((a + b).drop_last() =~= a + b.drop_last());
    }
}

pub proof fn lemma_count_absent(s: Seq<char>, c: char)
    requires
        forall|k: int| 0 <= k < s.len() ==> s[k] != c,
    ensures
        count_char(s, c) == 0,
    decreases s.len(),
{
    if s.len() > 0 {
        lemma_count_absent(s.drop_last(), c);
    }
}

pub proof fn lemma_count_positive(s: Seq<char>, c: char, k: int)
    requires
        0 <= k < s.len(),
        s[k] == c,
    ensures
        count_char(s, c) >= 1,
    decreases s.len(),
{
    if k < s.len() - 1 {
        lemma_count_positive(s.drop_last(), c, k);
    }
}

pub proof fn lemma_decimal_digits(n: nat)
    ensures
        forall|k: int|
            0 <= k < decimal(n).len() ==> decimal(n)[k] != '$' && decimal(n)[k] != '\\' && decimal(
                n,
            )[k] != '\n',
    decreases n,
{
    assert(crate::text::HEX_DIGITS@ =~= seq![
        '0', '1', '2', '3', '4', '5', '6', '7', '8', '9', 'a', 'b', 'c', 'd', 'e', 'f',
    ]);
    let h = crate::text::HEX_DIGITS@;
    assert(forall|i: int| 0 <= i < 16 ==> h[i] != '$' && h[i] != '\\' && h[i] != '\n');
    if n >= 10 {
        lemma_decimal_digits(n / 10);
        let p = decimal(n / 10);
        assert forall|k: int| 0 <= k < decimal(n).len() implies decimal(n)[k] != '$'
            && decimal(n)[k] != '\\' && decimal(n)[k] != '\n' by {
            if k < p.len() {
                assert(decimal(n)[k] == p[k]);
            }
        }
    }
}

pub proof fn lemma_token_plain(id: nat)
    ensures
        forall|k: int|
            0 <= k < placeholder_token(placeholder_name(id)).len() ==> placeholder_token(
                placeholder_name(id),
            )[k] != '$' && placeholder_token(placeholder_name(id))[k] != '\\'
                && placeholder_token(placeholder_name(id))[k] != '\n',
{
    reveal_strlit("LATEX_FORMULA_");
    lemma_decimal_digits(id);
    let t = placeholder_token(placeholder_name(id));
    let d = decimal(id);
    assert forall|k: int| 0 <= k < t.len() implies t[k] != '$' && t[k] != '\\' && t[k]
        != '\n' by {
        if 1 <= k < 15 {
            assert(t[k] == "LATEX_FORMULA_"@[k - 1]);
        } else if 15 <= k < 15 + d.len() {
            assert(t[k] == d[k - 15]);
        }
    }
}

/// Replacing a formula by a placeholder removes at least one opening character and
/// adds none of `$`, backslash or line feed.
pub proof fn lemma_replacement_counts(t: Seq<char>, d: Delimiter, i: int, end: int, id: nat)
    requires
        0 <= i < end <= t.len(),
        t[i] == opening_char(d),
    ensures
        ({
            let t2 = t.take(i) + placeholder_token(placeholder_name(id)) + t.skip(end);
            &&& count_char(t2, '$') + count_char(t.subrange(i, end), '$') == count_char(t, '$')
            &&& count_char(t2, '\\') + count_char(t.subrange(i, end), '\\') == count_char(t, '\\')
            &&& count_char(t.subrange(i, end), opening_char(d)) >= 1
        }),
{
    let tok = placeholder_token(placeholder_name(id));
    lemma_token_plain(id);
    lemma_count_absent(tok, '$');
    lemma_count_absent(tok, '\\');
    lemma_count_concat(t.take(i), tok, '$');
    lemma_count_concat(t.take(i) + tok, t.skip(end), '$');
    lemma_count_concat(t.take(i), tok, '\\');
    lemma_count_concat(t.take(i) + tok, t.skip(end), '\\');
    assert(t =~= t.take(i) + t.subrange(i, end) + t.skip(end));
    lemma_count_concat(t.take(i), t.subrange(i, end), '$');
    lemma_count_concat(t.take(i) + t.subrange(i, end), t.skip(end), '$');
    lemma_count_concat(t.take(i), t.subrange(i, end), '\\');
    lemma_count_concat(t.take(i) + t.subrange(i, end), t.skip(end), '\\');
    lemma_count_positive(t.subrange(i, end), opening_char(d), 0);
}

pub proof fn lemma_next_dollar(t: Seq<char>, k: int)
    requires
        0 <= k,
    ensures
        k <= t.len() ==> k <= next_dollar(t, k) <= t.len(),
        k > t.len() ==> next_dollar(t, k) == t.len(),
        next_dollar(t, k) < t.len() ==> t[next_dollar(t, k)] == '$',
        forall|p: int| k <= p < next_dollar(t, k) ==> t[p] != '$',
    decreases t.len() - k,
{
    if k < t.len() && t[k] != '$' {
        lemma_next_dollar(t, k + 1);
    }
}

pub proof fn lemma_next_close(t: Seq<char>, k: int, close: char)
    requires
        0 <= k,
    ensures
        next_close(t, k, close) == t.len() || (k <= next_close(t, k, close) && next_close(
            t,
            k,
            close,
        ) + 1 < t.len() && t[next_close(t, k, close)] == '\\' && t[next_close(t, k, close) + 1]
            == close),
        forall|p: int|
            k <= p < next_close(t, k, close) && p + 1 < t.len() ==> !(#[trigger] t[p] == '\\'
                && t[p + 1] == close),
    decreases t.len() - k,
{
    if k + 1 < t.len() && !(t[k] == '\\' && t[k + 1] == close) {
        lemma_next_close(t, k + 1, close);
    }
}

pub proof fn lemma_formula_at_shape(t: Seq<char>, d: Delimiter, i: int)
    requires
        formula_at(t, d, i) is Some,
    ensures
        ({
            let m = formula_at(t, d, i)->0;
            &&& i < m.1 <= m.0 <= t.len()
            &&& i < m.1 <= m.2 < m.0
            &&& t[i] == opening_char(d)
        }),
{
    match d {
        Delimiter::Dollar => lemma_next_dollar(t, i + 1),
        Delimiter::DoubleDollar => lemma_next_dollar(t, i + 2),
        Delimiter::Paren => lemma_next_close(t, i + 3, ')'),
        Delimiter::Bracket => lemma_next_close(t, i + 3, ']'),
    }
}

pub proof fn lemma_formula_shape(t: Seq<char>, d: Delimiter, k: int)
    requires
        leftmost_formula(t, d, k) is Some,
    ensures
        ({
            let m = leftmost_formula(t, d, k)->0;
            &&& k <= m.0 < m.1 <= t.len()
            &&& m.0 < m.2 <= m.3 < m.1
            &&& t[m.0] == opening_char(d)
            &&& formula_at(t, d, m.0) == Some((m.1, m.2, m.3))
        }),
    decreases t.len() - k,
{
    if formula_at(t, d, k) is None {
        lemma_formula_shape(t, d, k + 1);
    } else {
        lemma_formula_at_shape(t, d, k);
    }
}

/// The formula found from `k` is the leftmost one: a formula of that notation starts
/// where it starts and none starts between `k` and it; where none is found, no formula
/// of that notation starts at or after `k`.
pub proof fn law_leftmost_formula_comes_first(t: Seq<char>, d: Delimiter, k: int)
    requires
        0 <= k,
    ensures
        match leftmost_formula(t, d, k) {
            Some(m) => {
                &&& k <= m.0
                &&& formula_at(t, d, m.0) == Some((m.1, m.2, m.3))
                &&& forall|p: int| k <= p < m.0 ==> #[trigger] formula_at(t, d, p) is None
            },
            None => forall|p: int| k <= p < t.len() ==> #[trigger] formula_at(t, d, p) is None,
        },
    decreases t.len() - k,
{
    if k < t.len() {
        law_leftmost_formula_comes_first(t, d, k + 1);
        if formula_at(t, d, k) is None {
            assert forall|p: int| k <= p < k + 1 implies #[trigger] formula_at(t, d, p) is None by {
                assert(p == k);
            }
        }
    } else {
        assert forall|p: int| k <= p < t.len() implies #[trigger] formula_at(t, d, p) is None by {}
    }
}

/// A pass stores first the formula that starts leftmost, under the first number it hands
/// out, and replaces it by that number's placeholder.
pub proof fn law_pass_stores_leftmost_first(t: Seq<char>, d: Delimiter, id: nat, i: int)
    requires
        formula_at(t, d, i) is Some,
        forall|p: int| 0 <= p < i ==> #[trigger] formula_at(t, d, p) is None,
    ensures
        protect_pass(t, d, id).1.len() > 0,
        protect_pass(t, d, id).1[0] == (
            placeholder_name(id),
            stored_formula(d, t.subrange((formula_at(t, d, i)->0).1, (formula_at(t, d, i)->0).2)),
        ),
        protect_pass(t, d, id).1 == seq![protect_pass(t, d, id).1[0]] + protect_pass(
            t.take(i) + placeholder_token(placeholder_name(id)) + t.skip((formula_at(t, d, i)->0).0),
            d,
            id + 1,
        ).1,
{
    law_leftmost_formula_comes_first(t, d, 0);
    lemma_formula_at_shape(t, d, i);
    match leftmost_formula(t, d, 0) {
        Some(m) => {
            if m.0 < i {
                assert(formula_at(t, d, m.0) is None);
            }
            if m.0 > i {
                assert(formula_at(t, d, i) is None);
            }
            assert(m.0 == i);
        },
        None => {
            assert(formula_at(t, d, i) is None);
        },
    }
}

/// In a text without `$$...$$` formulas, the first formula stored is the content of the
/// leftmost `$...$` formula, under `LATEX_FORMULA_0`.
pub proof fn law_leftmost_inline_formula_is_stored_first(text: Seq<char>, i: int)
    requires
        free_of(text, Delimiter::DoubleDollar),
        formula_at(text, Delimiter::Dollar, i) is Some,
        forall|p: int| 0 <= p < i ==> #[trigger] formula_at(text, Delimiter::Dollar, p) is None,
    ensures
        protected(text).1.len() > 0,
        protected(text).1[0] == (
            "LATEX_FORMULA_0"@,
            text.subrange(
                (formula_at(text, Delimiter::Dollar, i)->0).1,
                (formula_at(text, Delimiter::Dollar, i)->0).2,
            ),
        ),
{
    let p1 = protect_pass(text, Delimiter::DoubleDollar, 0);
    assert(p1 == (text, Seq::<(Seq<char>, Seq<char>)>::empty(), 0nat));
    law_pass_stores_leftmost_first(text, Delimiter::Dollar, 0, i);
    let p2 = protect_pass(p1.0, Delimiter::Dollar, p1.2);
    let p3 = protect_pass(p2.0, Delimiter::Paren, p2.2);
    let p4 = protect_pass(p3.0, Delimiter::Bracket, p3.2);
    assert(protected(text).1 == p1.1 + p2.1 + p3.1 + p4.1);
    assert((p1.1 + p2.1 + p3.1 + p4.1)[0] == p2.1[0]);
    reveal_strlit("LATEX_FORMULA_");
    reveal_strlit("LATEX_FORMULA_0");
    assert(crate::text::HEX_DIGITS@ =~= seq![
        '0', '1', '2', '3', '4', '5', '6', '7', '8', '9', 'a', 'b', 'c', 'd', 'e', 'f',
    ]);
    assert(decimal(0) =~= seq!['0']);
    assert(placeholder_name(0) =~= "LATEX_FORMULA_0"@);
}

/// Counts, per notation, the characters a formula must start with.
pub open spec fn opening_count(t: Seq<char>, d: Delimiter) -> nat {
    count_char(t, opening_char(d))
}

/// Protecting every formula of notation `d` in `t`, numbering placeholders from `id`:
/// the leftmost formula is replaced by its placeholder, and the search starts again
/// from the beginning of the new text, until no formula is left. The result is the
/// final text, the stored `(name, formula)` entries in order, and the next free number.
pub open spec fn protect_pass(t: Seq<char>, d: Delimiter, id: nat) -> (
    Seq<char>,
    Seq<(Seq<char>, Seq<char>)>,
    nat,
)
    decreases opening_count(t, d),
{
    match leftmost_formula(t, d, 0) {
        None => (t, seq![], id),
        Some(m) => {
            proof {
                lemma_formula_shape(t, d, 0);
                lemma_replacement_counts(t, d, m.0, m.1, id);
            }
            let name = placeholder_name(id);
            let t2 = t.take(m.0) + placeholder_token(name) + t.skip(m.1);
            let entry = (name, stored_formula(d, t.subrange(m.2, m.3)));
            let rest = protect_pass(t2, d, id + 1);
            (rest.0, seq![entry] + rest.1, rest.2)
        },
    }
}

/// The protected text and the stored formulas: the four notations are handled in
/// the order `$$...$$`, `$...$`, `\(...\)`, `\[...\]` (`$$` first, so that the inline
/// `$` pass cannot split a `$$`), numbering continues across them.
pub open spec fn protected(text: Seq<char>) -> (Seq<char>, Seq<(Seq<char>, Seq<char>)>) {
    let p1 = protect_pass(text, Delimiter::DoubleDollar, 0);
    let p2 = protect_pass(p1.0, Delimiter::Dollar, p1.2);
    let p3 = protect_pass(p2.0, Delimiter::Paren, p2.2);
    let p4 = protect_pass(p3.0, Delimiter::Bracket, p3.2);
    (p4.0, p1.1 + p2.1 + p3.1 + p4.1)
}

/// The views of a list of `(name, formula)` string pairs.
pub open spec fn entries_view(v: Seq<(String, String)>) -> Seq<(Seq<char>, Seq<char>)> {
    v.map_values(|e: (String, String)| (e.0@, e.1@))
}

pub proof fn lemma_count_bounded(s: Seq<char>)
    ensures
        count_char(s, '$') + count_char(s, '\\') <= s.len(),
    decreases s.len(),
{
    if s.len() > 0 {
        lemma_count_bounded(s.drop_last());
    }
}

/// Every pass leaves no more `$` and backslashes behind than it was given, less one of
/// them for each number it hands out.
pub proof fn lemma_pass_budget(t: Seq<char>, d: Delimiter, id: nat)
    ensures
        ({
            let p = protect_pass(t, d, id);
            p.2 + count_char(p.0, '$') + count_char(p.0, '\\') <= id + count_char(t, '$')
                + count_char(t, '\\')
        }),
    decreases opening_count(t, d),
{
    match leftmost_formula(t, d, 0) {
        None => {},
        Some(m) => {
            lemma_formula_shape(t, d, 0);
            lemma_replacement_counts(t, d, m.0, m.1, id);
            let t2 = t.take(m.0) + placeholder_token(placeholder_name(id)) + t.skip(m.1);
            lemma_pass_budget(t2, d, id + 1);
        },
    }
}

fn next_dollar_exec(t: &Vec<char>, k: usize) -> (r: usize)
    requires
        k <= t.len(),
    ensures
        r == next_dollar(t@, k as int),
{
    let mut m = k;
    while m < t.len() && t[m] != '$'
        invariant
            k <= m <= t.len(),
            next_dollar(t@, k as int) == next_dollar(t@, m as int),
        decreases t.len() - m,
    {
        m = m + 1;
    }
    m
}

fn next_close_exec(t: &Vec<char>, k: usize, close: char) -> (r: usize)
    requires
        k <= t.len(),
    ensures
        r == next_close(t@, k as int, close),
{
    let mut m = k;
    while t.len() > 0 && m < t.len() - 1 && !(t[m] == '\\' && t[m + 1] == close)
        invariant
            k <= m <= t.len(),
            next_close(t@, k as int, close) == next_close(t@, m as int, close),
        decreases t.len() - m,
    {
        m = m + 1;
    }
    if t.len() > 0 && m < t.len() - 1 {
        m
    } else {
        t.len()
    }
}

fn no_newline_exec(t: &Vec<char>, a: usize, b: usize) -> (r: bool)
    requires
        a <= b <= t.len(),
    ensures
        r == no_newline(t@, a as int, b as int),
{
    let mut p = a;
    while p < b
        invariant
            a <= p <= b <= t.len(),
            no_newline(t@, a as int, p as int),
        decreases b - p,
    {
        if t[p] == '\n' {
            return false;
        }
        p = p + 1;
    }
    true
}

fn formula_at_exec(t: &Vec<char>, d: Delimiter, i: usize) -> (r: Option<(usize, usize, usize)>)
    requires
        i < t.len(),
    ensures
        match r {
            Some(m) => formula_at(t@, d, i as int) == Some((m.0 as int, m.1 as int, m.2 as int)),
            None => formula_at(t@, d, i as int) is None,
        },
{
    let n = t.len();
    match d {
        Delimiter::Dollar => {
            if t[i] != '$' {
                return None;
            }
            let j = next_dollar_exec(t, i + 1);
            if j < n && j >= i + 2 {
                Some((j + 1, i + 1, j))
            } else {
                None
            }
        },
        Delimiter::DoubleDollar => {
            if !(i + 1 < n && t[i] == '$' && t[i + 1] == '$') {
                return None;
            }
            let j = next_dollar_exec(t, i + 2);
            proof {
                lemma_next_dollar(t@, i + 2);
            }
            if j < n && j + 1 < n && j >= i + 3 && t[j + 1] == '$' {
                Some((j + 2, i + 2, j))
            } else {
                None
            }
        },
        Delimiter::Paren | Delimiter::Bracket => {
            let (open, close) = match d {
                Delimiter::Paren => ('(', ')'),
                _ => ('[', ']'),
            };
            if !(i + 1 < n && t[i] == '\\' && t[i + 1] == open) {
                return None;
            }
            if n - i < 3 {
                return None;
            }
            let j = next_close_exec(t, i + 3, close);
            proof {
                lemma_next_close(t@, i + 3, close);
            }
            if j < n && no_newline_exec(t, i + 2, j) {
                Some((j + 2, i + 2, j))
            } else {
                None
            }
        },
    }
}

fn leftmost_formula_exec(t: &Vec<char>, d: Delimiter) -> (r: Option<(usize, usize, usize, usize)>)
    ensures
        match r {
            Some(m) => leftmost_formula(t@, d, 0) == Some(
                (m.0 as int, m.1 as int, m.2 as int, m.3 as int),
            ),
            None => leftmost_formula(t@, d, 0) is None,
        },
{
    let mut k: usize = 0;
    while k < t.len()
        invariant
            k <= t.len(),
            leftmost_formula(t@, d, 0) == leftmost_formula(t@, d, k as int),
        decreases t.len() - k,
    {
        match formula_at_exec(t, d, k) {
            Some(m) => {
                return Some((k, m.0, m.1, m.2));
            },
            None => {},
        }
        k = k + 1;
    }
    None
}

fn copy_range(t: &Vec<char>, a: usize, b: usize, out: &mut Vec<char>)
    requires
        a <= b <= t.len(),
    ensures
        final(out)@ == old(out)@ + t@.subrange(a as int, b as int),
{
    let mut k = a;
    while k < b
        invariant
            a <= k <= b <= t.len(),
            out@ == old(out)@ + t@.subrange(a as int, k as int),
        decreases b - k,
    {
        out.push(t[k]);
        assert(t@.subrange(a as int, k + 1) =~= t@.subrange(a as int, k as int).push(t@[k as int]));
        k = k + 1;
    }
}

fn placeholder_name_exec(id: u64) -> (r: String)
    ensures
        r@ == placeholder_name(id as nat),
{
    let mut name = String::from_str("LATEX_FORMULA_");
    let digits = decimal_string(id);
    name.append(digits.as_str());
    name
}

fn protect_formula_pattern(
    t: Vec<char>,
    d: Delimiter,
    id: u64,
    entries: &mut Vec<(String, String)>,
) -> (r: (Vec<char>, u64))
    requires
        id + count_char(t@, '$') + count_char(t@, '\\') <= u64::MAX,
    ensures
        r.0@ == protect_pass(t@, d, id as nat).0,
        r.1 == protect_pass(t@, d, id as nat).2,
        entries_view(final(entries)@) == entries_view(old(entries)@) + protect_pass(
            t@,
            d,
            id as nat,
        ).1,
{
    let ghost orig = t@;
    let ghost id0 = id as nat;
    let ghost start = entries_view(entries@);
    let mut cur = t;
    let mut id = id;
    loop
        invariant
            id + count_char(cur@, '$') + count_char(cur@, '\\') <= id0 + count_char(orig, '$')
                + count_char(orig, '\\'),
            id0 + count_char(orig, '$') + count_char(orig, '\\') <= u64::MAX,
            protect_pass(orig, d, id0).0 == protect_pass(cur@, d, id as nat).0,
            protect_pass(orig, d, id0).2 == protect_pass(cur@, d, id as nat).2,
            entries_view(entries@) + protect_pass(cur@, d, id as nat).1 == start + protect_pass(
                orig,
                d,
                id0,
            ).1,
        ensures
            cur@ == protect_pass(orig, d, id0).0,
            id == protect_pass(orig, d, id0).2,
            entries_view(entries@) == start + protect_pass(orig, d, id0).1,
        decreases opening_count(cur@, d),
    {
        match leftmost_formula_exec(&cur, d) {
            None => {
                assert(entries_view(entries@) =~= start + protect_pass(orig, d, id0).1);
                break;
            },
            Some((i, end, cs, ce)) => {
                proof {
                    lemma_formula_shape(cur@, d, 0);
                    lemma_replacement_counts(cur@, d, i as int, end as int, id as nat);
                }
                let name = placeholder_name_exec(id);
                let mut next: Vec<char> = Vec::new();
                copy_range(&cur, 0, i, &mut next);
                next.push('{');
                let name_chars = chars_of(name.as_str());
                let nl = name_chars.len();
                copy_range(&name_chars, 0, nl, &mut next);
                next.push('}');
                let cl = cur.len();
                copy_range(&cur, end, cl, &mut next);
                let mut content: Vec<char> = Vec::new();
                copy_range(&cur, cs, ce, &mut content);
                let formula = if d == Delimiter::DoubleDollar || d == Delimiter::Bracket {
                    let mut f = String::from_str("DISPLAY:");
                    let c = string_of(content.as_slice());
                    f.append(c.as_str());
                    f
                } else {
                    string_of(content.as_slice())
                };
                let ghost tok = placeholder_token(placeholder_name(id as nat));
                assert(name_chars@.subrange(0, nl as int) =~= name_chars@);
                assert(next@ =~= cur@.take(i as int) + tok + cur@.skip(end as int));
                assert(content@ =~= cur@.subrange(cs as int, ce as int));
                let ghost old_entries = entries_view(entries@);
                entries.push((name, formula));
                assert(entries_view(entries@) =~= old_entries.push(
                    (placeholder_name(id as nat), stored_formula(d, cur@.subrange(cs as int, ce as int))),
                ));
                assert(seq![(placeholder_name(id as nat), stored_formula(d, cur@.subrange(cs as int, ce as int)))] + protect_pass(next@, d, (id + 1) as nat).1
                    =~= protect_pass(cur@, d, id as nat).1);
                assert(entries_view(entries@) + protect_pass(next@, d, (id + 1) as nat).1 =~= start + protect_pass(orig, d, id0).1);
                cur = next;
                id = id + 1;
            },
        }
    }
    (cur, id)
}

/// Replaces every LaTeX formula of `text` by a placeholder `{LATEX_FORMULA_n}` and
/// returns the new text with the `(LATEX_FORMULA_n, formula)` pairs in the order
/// they were found; display formulas are stored with a `DISPLAY:` prefix.
pub fn protect_latex_formulas(text: &str) -> (r: (String, Vec<(String, String)>))
    ensures
        r.0@ == protected(text@).0,
        entries_view(r.1@) == protected(text@).1,
        numbered_from(entries_view(r.1@), 0),
        crate::name_map::keys_distinct(entries_view(r.1@)),
        free_of(r.0@, Delimiter::Dollar),
        free_of(r.0@, Delimiter::DoubleDollar),
        free_of(r.0@, Delimiter::Paren),
        free_of(r.0@, Delimiter::Bracket),
{
    let t = chars_of(text);
    let mut entries: Vec<(String, String)> = Vec::new();
    proof {
        lemma_count_bounded(t@);
        lemma_pass_budget(t@, Delimiter::DoubleDollar, 0);
        assert(t@.len() == t.len());
        assert(t.len() <= usize::MAX);
        assert(usize::MAX <= u64::MAX);
        assert(count_char(t@, '$') + count_char(t@, '\\') <= u64::MAX);
    }
    let ghost p1 = protect_pass(t@, Delimiter::DoubleDollar, 0);
    let (t1, id1) = protect_formula_pattern(t, Delimiter::DoubleDollar, 0, &mut entries);
    proof {
        lemma_pass_budget(p1.0, Delimiter::Dollar, p1.2);
    }
    let ghost p2 = protect_pass(p1.0, Delimiter::Dollar, p1.2);
    let (t2, id2) = protect_formula_pattern(t1, Delimiter::Dollar, id1, &mut entries);
    proof {
        lemma_pass_budget(p2.0, Delimiter::Paren, p2.2);
    }
    let ghost p3 = protect_pass(p2.0, Delimiter::Paren, p2.2);
    let (t3, id3) = protect_formula_pattern(t2, Delimiter::Paren, id2, &mut entries);
    proof {
        lemma_pass_budget(p3.0, Delimiter::Bracket, p3.2);
    }
    let (t4, _id4) = protect_formula_pattern(t3, Delimiter::Bracket, id3, &mut entries);
    assert(entries_view(entries@) =~= protected(text@).1);
    proof {
        lemma_protected_names(text@);
        lemma_protected_text_free(text@);
    }
    (string_of(t4.as_slice()), entries)
}

/// The HTML that stands for a stored formula: display formulas (stored with the
/// `DISPLAY:` prefix) become `\[...\]` inside a `katex-display` span, the others
/// `\(...\)` inside a `katex-math` span.
pub open spec fn rendered_formula(f: Seq<char>) -> Seq<char> {
    if f.len() >= 8 && f.take(8) == "DISPLAY:"@ {
        "<span class=\"katex-display\"><span class=\"katex-math\">\\["@ + f.skip(8)
            + "\\]</span></span>"@
    } else {
        "<span class=\"katex-math\">\\("@ + f + "\\)</span>"@
    }
}

/// `html` with the placeholder of each stored formula, taken in order, replaced
/// everywhere by the formula's HTML.
pub open spec fn restored(html: Seq<char>, entries: Seq<(Seq<char>, Seq<char>)>) -> Seq<char>
    decreases entries.len(),
{
    if entries.len() == 0 {
        html
    } else {
        restored(
            replaced(html, placeholder_token(entries[0].0), rendered_formula(entries[0].1)),
            entries.drop_first(),
        )
    }
}

fn has_display_prefix(f: &Vec<char>) -> (r: bool)
    ensures
        r == (f@.len() >= 8 && f@.take(8) == "DISPLAY:"@),
{
    let p = chars_of("DISPLAY:");
    proof {
        reveal_strlit("DISPLAY:");
    }
    if f.len() < p.len() {
        proof {
            if f@.len() >= 8 {
                assert(f@.take(8).len() == 8);
            }
        }
        return false;
    }
    let mut k: usize = 0;
    while k < p.len()
        invariant
            p@ == "DISPLAY:"@,
            p.len() <= f.len(),
            k <= p.len(),
            forall|m: int| 0 <= m < k ==> f@[m] == p@[m],
        decreases p.len() - k,
    {
        if f[k] != p[k] {
            assert(f@.take(p.len() as int)[k as int] != p@[k as int]);
            return false;
        }
        k = k + 1;
    }
    assert(f@.take(p.len() as int) =~= p@);
    true
}

fn render_formula(formula: &String) -> (r: String)
    ensures
        r@ == rendered_formula(formula@),
{
    let f = chars_of(formula.as_str());
    if has_display_prefix(&f) {
        let mut rest: Vec<char> = Vec::new();
        let fl = f.len();
        copy_range(&f, 8, fl, &mut rest);
        assert(rest@ =~= f@.skip(8));
        let mut r = String::from_str("<span class=\"katex-display\"><span class=\"katex-math\">\\[");
        let body = string_of(rest.as_slice());
        r.append(body.as_str());
        r.append("\\]</span></span>");
        r
    } else {
        let mut r = String::from_str("<span class=\"katex-math\">\\(");
        r.append(formula.as_str());
        r.append("\\)</span>");
        r
    }
}

/// Puts the stored formulas back into rendered HTML: each `{name}` placeholder is
/// replaced by the HTML of its formula, the pairs taken in the given order.
pub fn restore_latex_formulas(html: &str, placeholders: &Vec<(String, String)>) -> (r: String)
    ensures
        r@ == restored(html@, entries_view(placeholders@)),
{
    let ghost all = entries_view(placeholders@);
    let mut result = String::from_str(html);
    let mut i: usize = 0;
    assert(all.skip(0) =~= all);
    while i < placeholders.len()
        invariant
            all == entries_view(placeholders@),
            i <= placeholders.len(),
            restored(html@, all) == restored(result@, all.skip(i as int)),
        decreases placeholders.len() - i,
    {
        let (name, formula) = &placeholders[i];
        let mut pattern = String::from_str("{");
        pattern.append(name.as_str());
        pattern.append("}");
        let rendered = render_formula(formula);
        proof {
            reveal_strlit("{");
            reveal_strlit("}");
        }
        assert(all[i as int] == (name@, formula@));
        assert(pattern@ =~= placeholder_token(name@));
        assert(all.skip(i as int).drop_first() =~= all.skip(i + 1));
        result = replace_all(result.as_str(), pattern.as_str(), rendered.as_str());
        i = i + 1;
    }
    assert(all.skip(placeholders.len() as int) =~= Seq::<(Seq<char>, Seq<char>)>::empty());
    result
}

/// Whether `s` begins with `p`.
pub open spec fn begins_with(s: Seq<char>, p: Seq<char>) -> bool {
    p.len() <= s.len() && s.take(p.len() as int) == p
}

/// A name that holds no brace and no angle bracket, so that its placeholder can
/// neither overlap another placeholder nor run into the HTML of a formula.
pub open spec fn plain_name(name: Seq<char>) -> bool {
    forall|k: int|
        0 <= k < name.len() ==> name[k] != '{' && name[k] != '}' && name[k] != '<' && name[k]
            != '>'
}

/// Whether `h` begins with the placeholder of one of the entries.
pub open spec fn placeholder_starts(h: Seq<char>, ents: Set<(Seq<char>, Seq<char>)>) -> bool {
    exists|e: (Seq<char>, Seq<char>)|
        #[trigger] ents.contains(e) && begins_with(h, placeholder_token(e.0))
}

/// `h` read from left to right with every placeholder of the entries replaced, all at
/// once, by its formula's HTML.
pub open spec fn substituted(h: Seq<char>, ents: Set<(Seq<char>, Seq<char>)>) -> Seq<char>
    decreases h.len(),
{
    if h.len() == 0 {
        h
    } else if placeholder_starts(h, ents) {
        let e = choose|e: (Seq<char>, Seq<char>)|
            #[trigger] ents.contains(e) && begins_with(h, placeholder_token(e.0));
        rendered_formula(e.1) + substituted(h.skip(placeholder_token(e.0).len() as int), ents)
    } else {
        seq![h[0]] + substituted(h.drop_first(), ents)
    }
}

/// Whether `t` occurs somewhere in `s`.
pub open spec fn holds_text(s: Seq<char>, t: Seq<char>) -> bool {
    exists|i: int| occurs_at(s, t, i)
}

/// Entries that can be put back in any order: plain names, one formula per name, and
/// no placeholder inside the HTML of a formula.
pub open spec fn restorable(ents: Set<(Seq<char>, Seq<char>)>) -> bool {
    &&& forall|e: (Seq<char>, Seq<char>)| #[trigger] ents.contains(e) ==> plain_name(e.0)
    &&& forall|a: (Seq<char>, Seq<char>), b: (Seq<char>, Seq<char>)|
        #[trigger] ents.contains(a) && #[trigger] ents.contains(b) && a.0 == b.0 ==> a == b
    &&& forall|a: (Seq<char>, Seq<char>), b: (Seq<char>, Seq<char>)|
        #[trigger] ents.contains(a) && #[trigger] ents.contains(b) ==> !holds_text(
            rendered_formula(a.1),
            placeholder_token(b.0),
        )
}

proof fn lemma_rendered_edges(f: Seq<char>)
    ensures
        rendered_formula(f).len() > 0,
        rendered_formula(f)[0] == '<',
        rendered_formula(f)[rendered_formula(f).len() - 1] == '>',
{
    reveal_strlit("<span class=\"katex-display\"><span class=\"katex-math\">\\[");
    reveal_strlit("\\]</span></span>");
    reveal_strlit("<span class=\"katex-math\">\\(");
    reveal_strlit("\\)</span>");
}

/// Two placeholders with plain names that both begin `h` are the same.
proof fn lemma_one_placeholder_at_start(h: Seq<char>, a: Seq<char>, b: Seq<char>)
    requires
        plain_name(a),
        plain_name(b),
        begins_with(h, placeholder_token(a)),
        begins_with(h, placeholder_token(b)),
    ensures
        a == b,
{
    let ta = placeholder_token(a);
    let tb = placeholder_token(b);
    assert forall|k: int| 0 <= k < ta.len() implies h[k] == ta[k] by {
        assert(h.take(ta.len() as int)[k] == h[k]);
    }
    assert forall|k: int| 0 <= k < tb.len() implies h[k] == tb[k] by {
        assert(h.take(tb.len() as int)[k] == h[k]);
    }
    if a.len() < b.len() {
        assert(ta[a.len() as int + 1] == '}');
        assert(tb[a.len() as int + 1] == b[a.len() as int]);
    } else if b.len() < a.len() {
        assert(tb[b.len() as int + 1] == '}');
        assert(ta[b.len() as int + 1] == a[b.len() as int]);
    } else {
        assert forall|k: int| 0 <= k < a.len() implies a[k] == b[k] by {
            assert(ta[k + 1] == a[k]);
            assert(tb[k + 1] == b[k]);
        }
        assert(a =~= b);
    }
}

proof fn lemma_substituted_prefix(x: Seq<char>, y: Seq<char>, ents: Set<(Seq<char>, Seq<char>)>)
    requires
        forall|i: int| 0 <= i < x.len() ==> !placeholder_starts(#[trigger] (x + y).skip(i), ents),
    ensures
        substituted(x + y, ents) == x + substituted(y, ents),
    decreases x.len(),
{
    if x.len() == 0 {
        assert(x + y =~= y);
    } else {
        let s = x + y;
        assert(s.skip(0) =~= s);
        assert(!placeholder_starts(s.skip(0), ents));
        let x1 = x.drop_first();
        assert(s.drop_first() =~= x1 + y);
        assert forall|i: int| 0 <= i < x1.len() implies !placeholder_starts(
            #[trigger] (x1 + y).skip(i),
            ents,
        ) by {
            assert((x1 + y).skip(i) =~= s.skip(i + 1));
        }
        lemma_substituted_prefix(x1, y, ents);
        assert(seq![x[0]] + (x1 + substituted(y, ents)) =~= x + substituted(y, ents));
    }
}

proof fn lemma_replaced_prefix(x: Seq<char>, y: Seq<char>, p: Seq<char>, r: Seq<char>)
    requires
        p.len() > 0,
        forall|i: int| 0 <= i < x.len() ==> !begins_with(#[trigger] (x + y).skip(i), p),
    ensures
        replaced(x + y, p, r) == x + replaced(y, p, r),
    decreases x.len(),
{
    if x.len() == 0 {
        assert(x + y =~= y);
    } else {
        let s = x + y;
        assert(s.skip(0) =~= s);
        assert(!begins_with(s.skip(0), p));
        let x1 = x.drop_first();
        assert(s.drop_first() =~= x1 + y);
        assert forall|i: int| 0 <= i < x1.len() implies !begins_with(
            #[trigger] (x1 + y).skip(i),
            p,
        ) by {
            assert((x1 + y).skip(i) =~= s.skip(i + 1));
        }
        lemma_replaced_prefix(x1, y, p, r);
        if s.len() < p.len() {
            assert(replaced(y, p, r) == y);
            assert(replaced(s, p, r) == s);
        } else {
            assert(replaced(s, p, r) == seq![s[0]] + replaced(s.drop_first(), p, r));
        }
        assert(seq![x[0]] + (x1 + replaced(y, p, r)) =~= x + replaced(y, p, r));
    }
}

/// A text that `replaced(h, p, r)` begins with and that holds no `r[0]` already begins `h`.
proof fn lemma_replaced_keeps_start(h: Seq<char>, p: Seq<char>, r: Seq<char>, u: Seq<char>)
    requires
        p.len() > 0,
        r.len() > 0,
        forall|k: int| 0 <= k < u.len() ==> u[k] != r[0],
        begins_with(replaced(h, p, r), u),
    ensures
        begins_with(h, u),
    decreases h.len(),
{
    let s = replaced(h, p, r);
    if u.len() == 0 {
        assert(h.take(0) =~= u);
    } else if h.len() < p.len() {
    } else if h.take(p.len() as int) == p {
        assert(s == r + replaced(h.skip(p.len() as int), p, r));
        assert(s.take(u.len() as int)[0] == s[0]);
        assert(u[0] == r[0]);
    } else {
        let h1 = h.drop_first();
        let u1 = u.drop_first();
        assert(s == seq![h[0]] + replaced(h1, p, r));
        assert(s.take(u.len() as int)[0] == s[0]);
        assert(replaced(h1, p, r).take(u1.len() as int) =~= s.take(u.len() as int).drop_first());
        lemma_replaced_keeps_start(h1, p, r, u1);
        assert forall|k: int| 0 <= k < u.len() implies h.take(u.len() as int)[k] == u[k] by {
            if k > 0 {
                assert(h1.take(u1.len() as int)[k - 1] == u1[k - 1]);
            }
        }
        assert(h.take(u.len() as int) =~= u);
    }
}

/// No placeholder of plain name starts inside the HTML of a formula that holds none of them.
proof fn lemma_no_placeholder_inside(
    r: Seq<char>,
    y: Seq<char>,
    ents: Set<(Seq<char>, Seq<char>)>,
    i: int,
)
    requires
        r.len() > 0,
        r[r.len() - 1] == '>',
        0 <= i < r.len(),
        forall|e: (Seq<char>, Seq<char>)| #[trigger] ents.contains(e) ==> plain_name(e.0),
        forall|e: (Seq<char>, Seq<char>)|
            #[trigger] ents.contains(e) ==> !holds_text(r, placeholder_token(e.0)),
    ensures
        !placeholder_starts((r + y).skip(i), ents),
{
    if placeholder_starts((r + y).skip(i), ents) {
        let e = choose|e: (Seq<char>, Seq<char>)|
            #[trigger] ents.contains(e) && begins_with((r + y).skip(i), placeholder_token(e.0));
        let t = placeholder_token(e.0);
        let w = (r + y).skip(i);
        assert forall|k: int| 0 <= k < t.len() implies w[k] == t[k] by {
            assert(w.take(t.len() as int)[k] == w[k]);
        }
        if i + t.len() <= r.len() {
            assert(r.subrange(i, i + t.len()) =~= t) by {
                assert forall|k: int| 0 <= k < t.len() implies r.subrange(i, i + t.len())[k]
                    == t[k] by {
                    assert(w[k] == (r + y)[i + k]);
                }
            }
            assert(occurs_at(r, t, i));
            assert(holds_text(r, t));
        } else {
            let k = r.len() - 1 - i;
            assert(w[k] == r[r.len() - 1]);
            if k > 0 {
                assert(t[k] == e.0[k - 1]);
            }
        }
    }
}

proof fn lemma_substituted_nothing(h: Seq<char>)
    ensures
        substituted(h, Set::<(Seq<char>, Seq<char>)>::empty()) == h,
    decreases h.len(),
{
    if h.len() > 0 {
        lemma_substituted_nothing(h.drop_first());
        assert(seq![h[0]] + h.drop_first() =~= h);
    }
}

/// Replacing the placeholder of one entry and then substituting the others all at once
/// is substituting all of them at once.
#[verifier::rlimit(30)]
proof fn lemma_restore_one(h: Seq<char>, e0: (Seq<char>, Seq<char>), rest: Set<(Seq<char>, Seq<char>)>)
    requires
        restorable(rest.insert(e0)),
    ensures
        substituted(replaced(h, placeholder_token(e0.0), rendered_formula(e0.1)), rest)
            == substituted(h, rest.insert(e0)),
    decreases h.len(),
{
    let all = rest.insert(e0);
    let t0 = placeholder_token(e0.0);
    let r0 = rendered_formula(e0.1);
    assert(all.contains(e0));
    assert forall|e: (Seq<char>, Seq<char>)| #[trigger] rest.contains(e) implies all.contains(e) by {}
    lemma_rendered_edges(e0.1);
    if h.len() == 0 {
    } else if begins_with(h, t0) {
        let h1 = h.skip(t0.len() as int);
        assert(h.take(t0.len() as int) == t0);
        assert(replaced(h, t0, r0) == r0 + replaced(h1, t0, r0));
        assert(placeholder_starts(h, all));
        let e = choose|e: (Seq<char>, Seq<char>)|
            #[trigger] all.contains(e) && begins_with(h, placeholder_token(e.0));
        lemma_one_placeholder_at_start(h, e.0, e0.0);
        assert(e == e0);
        assert(substituted(h, all) == r0 + substituted(h1, all));
        assert forall|e: (Seq<char>, Seq<char>)| #[trigger] rest.contains(e) implies !holds_text(
            r0,
            placeholder_token(e.0),
        ) by {
            assert(all.contains(e));
        }
        let y = replaced(h1, t0, r0);
        assert forall|i: int| 0 <= i < r0.len() implies !placeholder_starts(
            #[trigger] (r0 + y).skip(i),
            rest,
        ) by {
            lemma_no_placeholder_inside(r0, y, rest, i);
        }
        lemma_substituted_prefix(r0, y, rest);
        lemma_restore_one(h1, e0, rest);
    } else if placeholder_starts(h, rest) {
        let e = choose|e: (Seq<char>, Seq<char>)|
            #[trigger] rest.contains(e) && begins_with(h, placeholder_token(e.0));
        let te = placeholder_token(e.0);
        let h1 = h.skip(te.len() as int);
        assert(all.contains(e));
        assert(placeholder_starts(h, all));
        let ea = choose|e: (Seq<char>, Seq<char>)|
            #[trigger] all.contains(e) && begins_with(h, placeholder_token(e.0));
        lemma_one_placeholder_at_start(h, e.0, ea.0);
        assert(ea == e);
        assert(substituted(h, all) == rendered_formula(e.1) + substituted(h1, all));
        assert(h =~= te + h1) by {
            assert(h.take(te.len() as int) == te);
            assert(h =~= h.take(te.len() as int) + h1);
        }
        assert forall|i: int| 0 <= i < te.len() implies !begins_with(#[trigger] (te + h1).skip(i), t0)
            by {
            if i > 0 && begins_with((te + h1).skip(i), t0) {
                assert((te + h1).skip(i).take(t0.len() as int)[0] == (te + h1)[i]);
                assert(te[i] == '{');
                if i < te.len() - 1 {
                    assert(te[i] == e.0[i - 1]);
                }
            }
            if i == 0 {
                assert((te + h1).skip(0) =~= h);
            }
        }
        lemma_replaced_prefix(te, h1, t0, r0);
        let y = replaced(h1, t0, r0);
        let z = te + y;
        assert(z.take(te.len() as int) =~= te);
        assert(placeholder_starts(z, rest));
        let ez = choose|e: (Seq<char>, Seq<char>)|
            #[trigger] rest.contains(e) && begins_with(z, placeholder_token(e.0));
        lemma_one_placeholder_at_start(z, e.0, ez.0);
        assert(ez == e);
        assert(z.skip(te.len() as int) =~= y);
        assert(substituted(z, rest) == rendered_formula(e.1) + substituted(y, rest));
        lemma_restore_one(h1, e0, rest);
    } else {
        let h1 = h.drop_first();
        assert(!placeholder_starts(h, all)) by {
            if placeholder_starts(h, all) {
                let e = choose|e: (Seq<char>, Seq<char>)|
                    #[trigger] all.contains(e) && begins_with(h, placeholder_token(e.0));
                if e != e0 {
                    assert(rest.contains(e));
                }
            }
        }
        assert(substituted(h, all) == seq![h[0]] + substituted(h1, all));
        if h.len() < t0.len() {
            assert(replaced(h, t0, r0) == h);
            assert(replaced(h1, t0, r0) == h1);
        } else {
            assert(h.take(t0.len() as int) != t0);
        }
        let y = replaced(h1, t0, r0);
        assert(replaced(h, t0, r0) == seq![h[0]] + y);
        let z = seq![h[0]] + y;
        assert(!placeholder_starts(z, rest)) by {
            if placeholder_starts(z, rest) {
                let e = choose|e: (Seq<char>, Seq<char>)|
                    #[trigger] rest.contains(e) && begins_with(z, placeholder_token(e.0));
                let t = placeholder_token(e.0);
                let u = t.drop_first();
                assert(plain_name(e.0));
                assert forall|k: int| 0 <= k < u.len() implies u[k] != r0[0] by {
                    if k < u.len() - 1 {
                        assert(u[k] == e.0[k]);
                    }
                }
                assert(y.take(u.len() as int) =~= z.take(t.len() as int).drop_first());
                lemma_replaced_keeps_start(h1, t0, r0, u);
                assert(z.take(t.len() as int)[0] == z[0]);
                assert(h.take(t.len() as int) =~= t) by {
                    assert forall|k: int| 0 <= k < t.len() implies h.take(t.len() as int)[k]
                        == t[k] by {
                        if k > 0 {
                            assert(h1.take(u.len() as int)[k - 1] == u[k - 1]);
                        } else {
                            assert(z.take(t.len() as int)[0] == t[0]);
                        }
                    }
                }
                assert(begins_with(h, t));
                assert(placeholder_starts(h, rest));
            }
        }
        assert(z.drop_first() =~= y);
        assert(substituted(z, rest) == seq![h[0]] + substituted(y, rest));
        lemma_restore_one(h1, e0, rest);
    }
}

/// For entries with plain names, one formula per name and no placeholder inside the
/// HTML of a formula, restoring puts every placeholder back at once: replacing the
/// placeholders one entry after another gives the text in which each placeholder of
/// the entries is replaced by its formula's HTML.
pub proof fn law_restored_replaces_all_at_once(
    html: Seq<char>,
    entries: Seq<(Seq<char>, Seq<char>)>,
)
    requires
        restorable(entries.to_set()),
    ensures
        restored(html, entries) == substituted(html, entries.to_set()),
    decreases entries.len(),
{
    if entries.len() == 0 {
        assert(entries.to_set() =~= Set::<(Seq<char>, Seq<char>)>::empty());
        lemma_substituted_nothing(html);
    } else {
        let rest = entries.drop_first();
        let e0 = entries[0];
        assert(entries.to_set() =~= rest.to_set().insert(e0)) by {
            assert forall|e: (Seq<char>, Seq<char>)| #[trigger] entries.contains(e) implies e == e0
                || rest.contains(e) by {
                let k = choose|k: int| 0 <= k < entries.len() && entries[k] == e;
                if k > 0 {
                    assert(rest[k - 1] == e);
                }
            }
            assert forall|e: (Seq<char>, Seq<char>)| #[trigger] rest.contains(e) implies entries.contains(e)
                by {
                let k = choose|k: int| 0 <= k < rest.len() && rest[k] == e;
                assert(entries[k + 1] == e);
            }
            assert(entries[0] == e0);
        }
        assert forall|e: (Seq<char>, Seq<char>)| #[trigger] rest.to_set().contains(e) implies entries.to_set().contains(e) by {}
        let h1 = replaced(html, placeholder_token(e0.0), rendered_formula(e0.1));
        law_restored_replaces_all_at_once(h1, rest);
        lemma_restore_one(html, e0, rest.to_set());
    }
}

/// For entries with plain names, one formula per name and no placeholder inside the
/// HTML of a formula, the order in which they are listed (or listing one twice) does
/// not change what restoring gives.
pub proof fn law_restoring_order_does_not_matter(
    html: Seq<char>,
    a: Seq<(Seq<char>, Seq<char>)>,
    b: Seq<(Seq<char>, Seq<char>)>,
)
    requires
        restorable(a.to_set()),
        a.to_set() == b.to_set(),
    ensures
        restored(html, a) == restored(html, b),
{
    law_restored_replaces_all_at_once(html, a);
    law_restored_replaces_all_at_once(html, b);
}

/// The HTML that pulldown-cmark renders for `text` with the given option bits.
pub uninterp spec fn markdown_html(text: Seq<char>, options: u32) -> Seq<char>;

/// Renders Markdown to HTML with pulldown-cmark (`Parser::new_ext` and
/// `html::push_html`), the option bits converted by `Options::from_bits_truncate`.
/// The contract claims only that the output is a function of the text and the options.
#[verifier::external_body]
fn render_markdown(text: &str, options: u32) -> (r: String)
    ensures
        r@ == markdown_html(text@, options),
{
    let parser = pulldown_cmark::Parser::new_ext(
        text,
        pulldown_cmark::Options::from_bits_truncate(options),
    );
    let mut out = String::new();
    pulldown_cmark::html::push_html(&mut out, parser);
    out
}

/// pulldown-cmark's option bit for tables.
pub const ENABLE_TABLES: u32 = 2;

/// pulldown-cmark's option bit for footnotes.
pub const ENABLE_FOOTNOTES: u32 = 4;

/// pulldown-cmark's option bit for strikethrough.
pub const ENABLE_STRIKETHROUGH: u32 = 8;

/// pulldown-cmark's option bit for task lists.
pub const ENABLE_TASKLISTS: u32 = 16;

/// The Markdown extensions that are switched on.
pub const MARKDOWN_EXTENSIONS: u32 = ENABLE_STRIKETHROUGH | ENABLE_TABLES | ENABLE_FOOTNOTES
    | ENABLE_TASKLISTS;

/// Converts Markdown to HTML while keeping LaTeX formulas: they are protected
/// before rendering and restored, as KaTeX spans, afterwards.
pub fn markdown_to_html(markdown: &str) -> (r: String)
    ensures
        r@ == restored(
            markdown_html(protected(markdown@).0, MARKDOWN_EXTENSIONS),
            protected(markdown@).1,
        ),
{
    let (protected_text, placeholders) = protect_latex_formulas(markdown);
    let html_output = render_markdown(protected_text.as_str(), MARKDOWN_EXTENSIONS);
    restore_latex_formulas(html_output.as_str(), &placeholders)
}

/// The entries are named `LATEX_FORMULA_start`, `LATEX_FORMULA_start+1`, ... in order.
pub open spec fn numbered_from(entries: Seq<(Seq<char>, Seq<char>)>, start: nat) -> bool {
    forall|k: int| 0 <= k < entries.len() ==> #[trigger] entries[k].0 == placeholder_name(
        (start + k) as nat,
    )
}

pub proof fn lemma_decimal_nonempty(n: nat)
    ensures
        decimal(n).len() >= 1,
        n >= 10 ==> decimal(n).len() >= 2,
    decreases n,
{
    if n >= 10 {
        lemma_decimal_nonempty(n / 10);
    }
}

/// Different numbers have different decimal representations.
pub proof fn lemma_decimal_injective(a: nat, b: nat)
    requires
        decimal(a) == decimal(b),
    ensures
        a == b,
    decreases a,
{
    let h = crate::text::HEX_DIGITS@;
    assert(h =~= seq!['0', '1', '2', '3', '4', '5', '6', '7', '8', '9', 'a', 'b', 'c', 'd', 'e', 'f']);
    assert(forall|i: int, j: int| 0 <= i < 10 && 0 <= j < 10 && #[trigger] h[i] == #[trigger] h[j] ==> i == j);
    lemma_decimal_nonempty(a);
    lemma_decimal_nonempty(b);
    if a < 10 && b < 10 {
        assert(decimal(a) == seq![h[a as int]]);
        assert(decimal(b) == seq![h[b as int]]);
        assert(seq![h[a as int]][0] == h[a as int]);
        assert(seq![h[b as int]][0] == h[b as int]);
        assert(h[a as int] == h[b as int]);
    } else if a >= 10 && b >= 10 {
        let da = decimal(a);
        let db = decimal(b);
        assert(da.last() == db.last());
        assert(h[(a % 10) as int] == h[(b % 10) as int]);
        assert(da.drop_last() =~= decimal(a / 10));
        assert(db.drop_last() =~= decimal(b / 10));
        lemma_decimal_injective(a / 10, b / 10);
    }
}

pub proof fn lemma_placeholder_injective(a: nat, b: nat)
    requires
        placeholder_name(a) == placeholder_name(b),
    ensures
        a == b,
{
    reveal_strlit("LATEX_FORMULA_");
    assert(placeholder_name(a).skip(14) =~= decimal(a));
    assert(placeholder_name(b).skip(14) =~= decimal(b));
    lemma_decimal_injective(a, b);
}

/// A pass hands out consecutive numbers from `id`, one per stored formula.
pub proof fn lemma_pass_numbering(t: Seq<char>, d: Delimiter, id: nat)
    ensures
        numbered_from(protect_pass(t, d, id).1, id),
        protect_pass(t, d, id).2 == id + protect_pass(t, d, id).1.len(),
    decreases opening_count(t, d),
{
    match leftmost_formula(t, d, 0) {
        None => {},
        Some(m) => {
            lemma_formula_shape(t, d, 0);
            lemma_replacement_counts(t, d, m.0, m.1, id);
            let t2 = t.take(m.0) + placeholder_token(placeholder_name(id)) + t.skip(m.1);
            lemma_pass_numbering(t2, d, id + 1);
            let rest = protect_pass(t2, d, id + 1).1;
            let all = protect_pass(t, d, id).1;
            assert forall|k: int| 0 <= k < all.len() implies #[trigger] all[k].0 == placeholder_name(
                (id + k) as nat,
            ) by {
                if k > 0 {
                    assert(all[k] == rest[k - 1]);
                }
            }
        },
    }
}

/// The formulas are stored under `LATEX_FORMULA_0`, `LATEX_FORMULA_1`, ... in order,
/// so no name is used twice.
pub proof fn lemma_protected_names(text: Seq<char>)
    ensures
        numbered_from(protected(text).1, 0),
        crate::name_map::keys_distinct(protected(text).1),
{
    let p1 = protect_pass(text, Delimiter::DoubleDollar, 0);
    let p2 = protect_pass(p1.0, Delimiter::Dollar, p1.2);
    let p3 = protect_pass(p2.0, Delimiter::Paren, p2.2);
    let p4 = protect_pass(p3.0, Delimiter::Bracket, p3.2);
    lemma_pass_numbering(text, Delimiter::DoubleDollar, 0);
    lemma_pass_numbering(p1.0, Delimiter::Dollar, p1.2);
    lemma_pass_numbering(p2.0, Delimiter::Paren, p2.2);
    lemma_pass_numbering(p3.0, Delimiter::Bracket, p3.2);
    let all = protected(text).1;
    assert(all == p1.1 + p2.1 + p3.1 + p4.1);
    assert forall|k: int| 0 <= k < all.len() implies #[trigger] all[k].0 == placeholder_name(
        (0 + k) as nat,
    ) by {
        let n1 = p1.1.len() as int;
        let n2 = p2.1.len() as int;
        let n3 = p3.1.len() as int;
        if k < n1 {
            assert(all[k] == p1.1[k]);
        } else if k < n1 + n2 {
            assert(all[k] == p2.1[k - n1]);
        } else if k < n1 + n2 + n3 {
            assert(all[k] == p3.1[k - n1 - n2]);
        } else {
            assert(all[k] == p4.1[k - n1 - n2 - n3]);
        }
    }
    assert forall|i: int, j: int| 0 <= i < j < all.len() implies all[i].0 != all[j].0 by {
        if all[i].0 == all[j].0 {
            assert(all[i].0 == placeholder_name(i as nat));
            assert(all[j].0 == placeholder_name(j as nat));
            lemma_placeholder_injective(i as nat, j as nat);
        }
    }
}

/// No formula of notation `d` is left in `t`.
pub open spec fn free_of(t: Seq<char>, d: Delimiter) -> bool {
    leftmost_formula(t, d, 0) is None
}

pub proof fn lemma_leftmost_none(t: Seq<char>, d: Delimiter, k: int)
    requires
        0 <= k,
    ensures
        leftmost_formula(t, d, k) is None <==> forall|i: int|
            k <= i < t.len() ==> #[trigger] formula_at(t, d, i) is None,
    decreases t.len() - k,
{
    if k < t.len() {
        lemma_leftmost_none(t, d, k + 1);
    }
}

/// Every pass leaves no formula of its own notation behind.
pub proof fn lemma_pass_frees(t: Seq<char>, d: Delimiter, id: nat)
    ensures
        free_of(protect_pass(t, d, id).0, d),
    decreases opening_count(t, d),
{
    match leftmost_formula(t, d, 0) {
        None => {},
        Some(m) => {
            lemma_formula_shape(t, d, 0);
            lemma_replacement_counts(t, d, m.0, m.1, id);
            let t2 = t.take(m.0) + placeholder_token(placeholder_name(id)) + t.skip(m.1);
            lemma_pass_frees(t2, d, id + 1);
        },
    }
}

/// Replacing a stretch that does not start with `$` by text without `$` creates no
/// `$...$` formula.
#[verifier::rlimit(30)]
pub proof fn lemma_dollar_free_splice(t: Seq<char>, a: int, e: int, tok: Seq<char>)
    requires
        free_of(t, Delimiter::Dollar),
        0 <= a < e <= t.len(),
        t[a] != '$',
        forall|k: int| 0 <= k < tok.len() ==> tok[k] != '$',
    ensures
        free_of(t.take(a) + tok + t.skip(e), Delimiter::Dollar),
{
    let t2 = t.take(a) + tok + t.skip(e);
    let tl = tok.len() as int;
    lemma_leftmost_none(t, Delimiter::Dollar, 0);
    lemma_leftmost_none(t2, Delimiter::Dollar, 0);
    assert(t2.len() == a + tl + t.len() - e);
    assert forall|i: int| 0 <= i < a implies t2[i] == t[i] by {}
    assert forall|i: int| a <= i < a + tl implies t2[i] == tok[i - a] by {}
    assert forall|i: int| a + tl <= i < t2.len() implies t2[i] == t[i - a - tl + e] by {}
    assert forall|p: int| 0 <= p < t2.len() implies #[trigger] formula_at(t2, Delimiter::Dollar, p)
        is None by {
        if t2[p] == '$' {
            let q = next_dollar(t2, p + 1);
            lemma_next_dollar(t2, p + 1);
            if q < t2.len() && q >= p + 2 {
                assert(t2[q] == '$');
                if p < a {
                    assert(t[p] == '$');
                    assert(formula_at(t, Delimiter::Dollar, p) is None);
                    let qt = next_dollar(t, p + 1);
                    lemma_next_dollar(t, p + 1);
                    if qt < t.len() {
                        assert(qt == p + 1);
                        assert(p + 1 < a);
                        assert(t2[p + 1] == '$');
                        assert(false);
                    } else {
                        if q < a {
                            assert(t[q] == '$');
                        } else if q < a + tl {
                            assert(tok[q - a] == '$');
                        } else {
                            assert(t[q - a - tl + e] == '$');
                        }
                        assert(false);
                    }
                } else if p < a + tl {
                    assert(tok[p - a] == '$');
                } else {
                    let pt = p - a - tl + e;
                    let qt = q - a - tl + e;
                    assert(t[pt] == '$');
                    assert(t[qt] == '$');
                    assert forall|r: int| pt + 1 <= r < qt implies t[r] != '$' by {
                        assert(t2[r + a + tl - e] == t[r]);
                    }
                    lemma_next_dollar(t, pt + 1);
                    let nd = next_dollar(t, pt + 1);
                    if nd < qt {
                        assert(t[nd] == '$');
                    }
                    if nd > qt {
                        assert(t[qt] != '$');
                    }
                    assert(nd == qt);
                    assert(formula_at(t, Delimiter::Dollar, pt) is Some);
                    assert(false);
                }
            }
        }
    }
}

/// Protecting `\(...\)` or `\[...\]` formulas creates no `$...$` formula.
pub proof fn lemma_pass_keeps_dollar_free(t: Seq<char>, d: Delimiter, id: nat)
    requires
        free_of(t, Delimiter::Dollar),
        d == Delimiter::Paren || d == Delimiter::Bracket,
    ensures
        free_of(protect_pass(t, d, id).0, Delimiter::Dollar),
    decreases opening_count(t, d),
{
    match leftmost_formula(t, d, 0) {
        None => {},
        Some(m) => {
            lemma_formula_shape(t, d, 0);
            lemma_replacement_counts(t, d, m.0, m.1, id);
            lemma_token_plain(id);
            let tok = placeholder_token(placeholder_name(id));
            lemma_dollar_free_splice(t, m.0, m.1, tok);
            let t2 = t.take(m.0) + tok + t.skip(m.1);
            lemma_pass_keeps_dollar_free(t2, d, id + 1);
        },
    }
}

/// Where no `$...$` formula is left, no `$$...$$` formula is left either: its inner
/// `$...$` would be one.
pub proof fn lemma_no_double_when_dollar_free(t: Seq<char>)
    requires
        free_of(t, Delimiter::Dollar),
    ensures
        free_of(t, Delimiter::DoubleDollar),
{
    lemma_leftmost_none(t, Delimiter::Dollar, 0);
    lemma_leftmost_none(t, Delimiter::DoubleDollar, 0);
    assert forall|i: int| 0 <= i < t.len() implies #[trigger] formula_at(
        t,
        Delimiter::DoubleDollar,
        i,
    ) is None by {
        if formula_at(t, Delimiter::DoubleDollar, i) is Some {
            assert(formula_at(t, Delimiter::Dollar, i + 1) is Some);
        }
    }
}

/// What `lemma_paren_free_splice` asks of a splice.
pub open spec fn paren_safe_splice(t: Seq<char>, a: int, e: int, tok: Seq<char>) -> bool {
    &&& free_of(t, Delimiter::Paren)
    &&& 0 <= a
    &&& a + 5 <= e <= t.len()
    &&& t[a] == '\\'
    &&& no_newline(t, a, e)
    &&& tok.len() > 0
    &&& tok[0] == '{'
    &&& forall|k: int| 0 <= k < tok.len() ==> tok[k] != '\\' && tok[k] != '\n'
}

#[verifier::rlimit(30)]
proof fn lemma_paren_splice_after(t: Seq<char>, a: int, e: int, tok: Seq<char>, p: int)
    requires
        paren_safe_splice(t, a, e, tok),
        a + tok.len() <= p < t.len() - (e - a - tok.len()),
    ensures
        formula_at(t.take(a) + tok + t.skip(e), Delimiter::Paren, p) is None,
{
    let t2 = t.take(a) + tok + t.skip(e);
    let tl = tok.len() as int;
    let sh = e - a - tl;
    lemma_leftmost_none(t, Delimiter::Paren, 0);
    assert forall|i: int| a + tl <= i < t2.len() implies t2[i] == t[i + sh] by {}
    if formula_at(t2, Delimiter::Paren, p) is Some {
        let j = next_close(t2, p + 3, ')');
        lemma_next_close(t2, p + 3, ')');
        let pt = p + sh;
        let jt = j + sh;
        assert(t[pt] == '\\' && t[pt + 1] == '(');
        assert(t[jt] == '\\' && t[jt + 1] == ')');
        lemma_next_close(t, pt + 3, ')');
        let nt = next_close(t, pt + 3, ')');
        if nt < jt {
            assert(t2[nt - sh] == '\\' && t2[nt - sh + 1] == ')');
            assert(false);
        }
        assert(nt == jt);
        assert forall|r: int| pt + 2 <= r < jt implies t[r] != '\n' by {
            assert(t2[r - sh] == t[r]);
        }
        assert(formula_at(t, Delimiter::Paren, pt) is Some);
    }
}

#[verifier::rlimit(30)]
proof fn lemma_paren_splice_before(t: Seq<char>, a: int, e: int, tok: Seq<char>, p: int)
    requires
        paren_safe_splice(t, a, e, tok),
        0 <= p < a,
    ensures
        formula_at(t.take(a) + tok + t.skip(e), Delimiter::Paren, p) is None,
{
    let t2 = t.take(a) + tok + t.skip(e);
    let tl = tok.len() as int;
    let sh = e - a - tl;
    lemma_leftmost_none(t, Delimiter::Paren, 0);
    assert(t2.len() == t.len() - sh);
    assert forall|i: int| 0 <= i < a implies t2[i] == t[i] by {}
    assert forall|i: int| a <= i < a + tl implies t2[i] == tok[i - a] by {}
    assert forall|i: int| a + tl <= i < t2.len() implies t2[i] == t[i + sh] by {}
    if formula_at(t2, Delimiter::Paren, p) is Some {
        let j = next_close(t2, p + 3, ')');
        lemma_next_close(t2, p + 3, ')');
        assert(t2[p] == '\\' && t2[p + 1] == '(');
        assert(j < t2.len() && t2[j] == '\\' && t2[j + 1] == ')');
        assert(p + 1 < a);
        assert(t[p] == '\\' && t[p + 1] == '(');
        lemma_next_close(t, p + 3, ')');
        let nt = next_close(t, p + 3, ')');
        if j + 1 < a {
            assert(t[j] == '\\' && t[j + 1] == ')');
            if nt < j {
                assert(t2[nt] == '\\' && t2[nt + 1] == ')');
                assert(false);
            }
            assert(nt == j);
            assert(formula_at(t, Delimiter::Paren, p) is Some);
        } else if j < a + tl {
            if j < a {
                assert(t2[j + 1] == tok[0]);
            } else {
                assert(tok[j - a] == '\\');
            }
        } else {
            let jt = j + sh;
            assert(t[jt] == '\\' && t[jt + 1] == ')');
            assert(nt <= jt);
            assert forall|r: int| p + 2 <= r < nt implies t[r] != '\n' by {
                if r < a {
                    assert(t2[r] == t[r]);
                } else if r >= e {
                    assert(t2[r - sh] == t[r]);
                }
            }
            assert(formula_at(t, Delimiter::Paren, p) is Some);
        }
    }
}

/// Replacing a stretch without line feeds that starts with a backslash by a nonempty
/// text that starts with `{` and holds no backslash and no line feed creates no
/// `\(...\)` formula.
pub proof fn lemma_paren_free_splice(t: Seq<char>, a: int, e: int, tok: Seq<char>)
    requires
        paren_safe_splice(t, a, e, tok),
    ensures
        free_of(t.take(a) + tok + t.skip(e), Delimiter::Paren),
{
    let t2 = t.take(a) + tok + t.skip(e);
    let tl = tok.len() as int;
    lemma_leftmost_none(t2, Delimiter::Paren, 0);
    assert forall|p: int| 0 <= p < t2.len() implies #[trigger] formula_at(t2, Delimiter::Paren, p)
        is None by {
        if p < a {
            lemma_paren_splice_before(t, a, e, tok, p);
        } else if p < a + tl {
            assert(t2[p] == tok[p - a]);
        } else {
            lemma_paren_splice_after(t, a, e, tok, p);
        }
    }
}

/// Protecting `\[...\]` formulas creates no `\(...\)` formula.
pub proof fn lemma_bracket_pass_keeps_paren_free(t: Seq<char>, id: nat)
    requires
        free_of(t, Delimiter::Paren),
    ensures
        free_of(protect_pass(t, Delimiter::Bracket, id).0, Delimiter::Paren),
    decreases opening_count(t, Delimiter::Bracket),
{
    match leftmost_formula(t, Delimiter::Bracket, 0) {
        None => {},
        Some(m) => {
            lemma_formula_shape(t, Delimiter::Bracket, 0);
            lemma_replacement_counts(t, Delimiter::Bracket, m.0, m.1, id);
            lemma_token_plain(id);
            lemma_next_close(t, m.0 + 3, ']');
            assert(no_newline(t, m.0, m.1));
            let tok = placeholder_token(placeholder_name(id));
            lemma_paren_free_splice(t, m.0, m.1, tok);
            let t2 = t.take(m.0) + tok + t.skip(m.1);
            lemma_bracket_pass_keeps_paren_free(t2, id + 1);
        },
    }
}

/// After protection, the text holds no formula of any of the four notations.
pub proof fn lemma_protected_text_free(text: Seq<char>)
    ensures
        free_of(protected(text).0, Delimiter::Dollar),
        free_of(protected(text).0, Delimiter::DoubleDollar),
        free_of(protected(text).0, Delimiter::Paren),
        free_of(protected(text).0, Delimiter::Bracket),
{
    let p1 = protect_pass(text, Delimiter::DoubleDollar, 0);
    let p2 = protect_pass(p1.0, Delimiter::Dollar, p1.2);
    let p3 = protect_pass(p2.0, Delimiter::Paren, p2.2);
    let p4 = protect_pass(p3.0, Delimiter::Bracket, p3.2);
    lemma_pass_frees(p1.0, Delimiter::Dollar, p1.2);
    lemma_pass_keeps_dollar_free(p2.0, Delimiter::Paren, p2.2);
    lemma_pass_keeps_dollar_free(p3.0, Delimiter::Bracket, p3.2);
    lemma_no_double_when_dollar_free(p4.0);
    lemma_pass_frees(p3.0, Delimiter::Bracket, p3.2);
    lemma_pass_frees(p2.0, Delimiter::Paren, p2.2);
    lemma_bracket_pass_keeps_paren_free(p3.0, p3.2);
}

} // verus!
