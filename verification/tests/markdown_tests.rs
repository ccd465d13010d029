use rs_translator::{markdown_to_html, protect_latex_formulas, restore_latex_formulas};

fn pairs(v: &[(&str, &str)]) -> Vec<(String, String)> {
    v.iter().map(|(a, b)| (a.to_string(), b.to_string())).collect()
}

#[test]
fn protects_double_dollars_first_then_the_other_notations_in_turn() {
    let (text, found) =
        protect_latex_formulas("Euler: $e^{i\\pi}+1=0$ and \\(a\\) then $$x$$ and \\[y^2\\] end");
    assert_eq!(
        text,
        "Euler: {LATEX_FORMULA_1} and {LATEX_FORMULA_2} then {LATEX_FORMULA_0} and {LATEX_FORMULA_3} end"
    );
    assert_eq!(
        found,
        pairs(&[
            ("LATEX_FORMULA_0", "DISPLAY:x"),
            ("LATEX_FORMULA_1", "e^{i\\pi}+1=0"),
            ("LATEX_FORMULA_2", "a"),
            ("LATEX_FORMULA_3", "DISPLAY:y^2"),
        ])
    );
}

#[test]
fn numbers_dollar_then_parenthesis_then_bracket_formulas() {
    let (text, found) = protect_latex_formulas("a $x$ and \\(y\\) and \\[z\\]");
    assert_eq!(text, "a {LATEX_FORMULA_0} and {LATEX_FORMULA_1} and {LATEX_FORMULA_2}");
    assert_eq!(
        found,
        pairs(&[
            ("LATEX_FORMULA_0", "x"),
            ("LATEX_FORMULA_1", "y"),
            ("LATEX_FORMULA_2", "DISPLAY:z"),
        ])
    );
}

#[test]
fn double_dollar_is_a_display_formula() {
    let (text, found) = protect_latex_formulas("$$x$$");
    assert_eq!(text, "{LATEX_FORMULA_0}");
    assert_eq!(found, pairs(&[("LATEX_FORMULA_0", "DISPLAY:x")]));
}

#[test]
fn a_bracket_inside_an_inline_formula_stays_in_it() {
    let (text, found) = protect_latex_formulas("s$\\[z\\]$t");
    assert_eq!(text, "s{LATEX_FORMULA_0}t");
    assert_eq!(found, pairs(&[("LATEX_FORMULA_0", "\\[z\\]")]));
}

#[test]
fn inline_dollars_inside_a_display_formula_are_protected_first() {
    let (text, found) = protect_latex_formulas("\\[a $b$ c\\]");
    assert_eq!(text, "{LATEX_FORMULA_1}");
    assert_eq!(
        found,
        pairs(&[("LATEX_FORMULA_0", "b"), ("LATEX_FORMULA_1", "DISPLAY:a {LATEX_FORMULA_0} c")])
    );
}

#[test]
fn lone_dollars_pair_up_with_the_next_one() {
    let (text, found) = protect_latex_formulas("cost $5 and $$ only");
    assert_eq!(text, "cost {LATEX_FORMULA_0}$ only");
    assert_eq!(found, pairs(&[("LATEX_FORMULA_0", "5 and ")]));
}

#[test]
fn inline_parentheses_do_not_cross_lines() {
    let (text, found) = protect_latex_formulas("\\(a\nb\\) and \\[c\\]");
    assert_eq!(text, "\\(a\nb\\) and {LATEX_FORMULA_0}");
    assert_eq!(found, pairs(&[("LATEX_FORMULA_0", "DISPLAY:c")]));
}

#[test]
fn text_without_formulas_is_unchanged() {
    let (text, found) = protect_latex_formulas("plain *markdown* text");
    assert_eq!(text, "plain *markdown* text");
    assert!(found.is_empty());
}

#[test]
fn placeholder_names_are_distinct() {
    let (_, found) = protect_latex_formulas("$a$ $b$ $c$ $d$ $e$ $f$ $g$ $h$ $i$ $j$ $k$ $l$");
    assert_eq!(found.len(), 12);
    for (i, (name, _)) in found.iter().enumerate() {
        assert_eq!(name, &format!("LATEX_FORMULA_{}", i));
    }
    assert_eq!(found[10].0, "LATEX_FORMULA_10");
}

#[test]
fn restores_inline_and_display_formulas() {
    let html = restore_latex_formulas(
        "<p>{A} and {B} and {A}</p>",
        &pairs(&[("A", "x^2"), ("B", "DISPLAY:\\sum")]),
    );
    assert_eq!(
        html,
        "<p><span class=\"katex-math\">\\(x^2\\)</span> and <span class=\"katex-display\"><span class=\"katex-math\">\\[\\sum\\]</span></span> and <span class=\"katex-math\">\\(x^2\\)</span></p>"
    );
}

#[test]
fn restoring_follows_the_order_of_the_pairs() {
    let (text, found) =
        protect_latex_formulas("Euler: $e^{i\\pi}+1=0$ and \\(a\\) then $$x$$ and \\[y^2\\] end");
    assert_eq!(
        restore_latex_formulas(&text, &found),
        "Euler: <span class=\"katex-math\">\\(e^{i\\pi}+1=0\\)</span> and <span class=\"katex-math\">\\(a\\)</span> then <span class=\"katex-display\"><span class=\"katex-math\">\\[x\\]</span></span> and <span class=\"katex-display\"><span class=\"katex-math\">\\[y^2\\]</span></span> end"
    );
}

#[test]
fn markdown_keeps_formulas() {
    assert_eq!(
        markdown_to_html("**bold** and $x_1 * y_2$"),
        "<p><strong>bold</strong> and <span class=\"katex-math\">\\(x_1 * y_2\\)</span></p>\n"
    );
}

#[test]
fn markdown_keeps_display_formulas() {
    assert_eq!(
        markdown_to_html("$$x$$"),
        "<p><span class=\"katex-display\"><span class=\"katex-math\">\\[x\\]</span></span></p>\n"
    );
}

#[test]
fn markdown_keeps_a_bracket_inside_an_inline_formula() {
    assert_eq!(
        markdown_to_html("s$\\[z\\]$t"),
        "<p>s<span class=\"katex-math\">\\(\\[z\\]\\)</span>t</p>\n"
    );
}

#[test]
fn markdown_extensions_are_enabled() {
    assert_eq!(markdown_to_html("~~gone~~"), "<p><del>gone</del></p>\n");
}

#[test]
fn restoring_in_another_order_gives_the_same_html() {
    let html = "<p>{A} then {B10} and {B1} and {A}</p>";
    let forward = pairs(&[("A", "x"), ("B1", "DISPLAY:y"), ("B10", "z^{2}")]);
    let backward = pairs(&[("B10", "z^{2}"), ("B1", "DISPLAY:y"), ("A", "x")]);
    let expected = "<p><span class=\"katex-math\">\\(x\\)</span> then <span class=\"katex-math\">\\(z^{2}\\)</span> and <span class=\"katex-display\"><span class=\"katex-math\">\\[y\\]</span></span> and <span class=\"katex-math\">\\(x\\)</span></p>";
    assert_eq!(restore_latex_formulas(html, &forward), expected);
    assert_eq!(restore_latex_formulas(html, &backward), expected);
}

#[test]
fn a_placeholder_inside_a_formula_depends_on_the_order() {
    let html = "{LATEX_FORMULA_1}";
    let found = pairs(&[("LATEX_FORMULA_0", "b"), ("LATEX_FORMULA_1", "DISPLAY:a {LATEX_FORMULA_0} c")]);
    assert_eq!(
        restore_latex_formulas(html, &found),
        "<span class=\"katex-display\"><span class=\"katex-math\">\\[a {LATEX_FORMULA_0} c\\]</span></span>"
    );
    let reversed = vec![found[1].clone(), found[0].clone()];
    assert_eq!(
        restore_latex_formulas(html, &reversed),
        "<span class=\"katex-display\"><span class=\"katex-math\">\\[a <span class=\"katex-math\">\\(b\\)</span> c\\]</span></span>"
    );
}
