use ferroleaf::editor::{
    tokenize_latex, tokenize_latex_checked, tokenize_line_checked, tokenize_line_hl,
    LatexHighlightSettings, LatexHighlighter, TokenKind,
};

#[test]
fn document_tokens() {
    let src = "\\section{Intro} % note\n$x$ and $$y$$ [1.5]";
    let t = tokenize_latex(src);
    assert_eq!(
        t,
        vec![
            (0, 8, TokenKind::Command),
            (8, 9, TokenKind::Brace),
            (14, 15, TokenKind::Brace),
            (16, 22, TokenKind::Comment),
            (23, 26, TokenKind::MathInline),
            (31, 36, TokenKind::MathBlock),
            (37, 38, TokenKind::Bracket),
            (38, 41, TokenKind::Number),
            (41, 42, TokenKind::Bracket),
        ]
    );
}

#[test]
fn document_tokens_are_ordered() {
    let src = "\\begin{doc}\n% c\n$a+b$ 12 \\\\ $$\\int$$ {x}[y]\n\\end";
    let t = tokenize_latex(src);
    for (s, e, _) in &t {
        assert!(s < e && *e <= src.len());
    }
    for w in t.windows(2) {
        assert!(w[0].1 <= w[1].0);
    }
}

#[test]
fn unclosed_math_runs_to_the_end() {
    assert_eq!(tokenize_latex("a $b c"), vec![(2, 6, TokenKind::MathInline)]);
    assert_eq!(tokenize_latex("$$b"), vec![(0, 3, TokenKind::MathBlock)]);
    assert_eq!(tokenize_latex("\\"), vec![(0, 1, TokenKind::Command)]);
}

#[test]
fn checked_tokenizer_refuses_what_would_panic() {
    // The inline-math scan would slice inside the two-byte 'é'.
    assert!(tokenize_latex_checked("$é").is_none());
    assert_eq!(tokenize_latex_checked("$e$"), Some(vec![(0, 3, TokenKind::MathInline)]));
}

#[test]
fn line_tokens() {
    let mut m = false;
    let t = tokenize_line_hl("\\begin{x} \\foo $a$ 3 % c", &mut m);
    assert_eq!(
        t,
        vec![
            (0..6, TokenKind::Environment),
            (6..7, TokenKind::Brace),
            (8..9, TokenKind::Brace),
            (10..14, TokenKind::Command),
            (15..18, TokenKind::MathInline),
            (19..20, TokenKind::Number),
            (21..24, TokenKind::Comment),
        ]
    );
    assert!(!m);
}

#[test]
fn block_math_carries_over_lines() {
    let mut m = false;
    let a = tokenize_line_hl("x $$ a", &mut m);
    assert_eq!(a, vec![(2..6, TokenKind::MathBlock)]);
    assert!(m);
    let b = tokenize_line_hl("b $$ \\c", &mut m);
    assert_eq!(b, vec![(0..4, TokenKind::MathBlock), (5..7, TokenKind::Command)]);
    assert!(!m);
}

#[test]
fn checked_line_tokenizer_matches() {
    let mut m = false;
    assert_eq!(
        tokenize_line_checked("{}", &mut m),
        Some(vec![(0..1, TokenKind::Brace), (1..2, TokenKind::Brace)])
    );
}

#[test]
fn highlighter_state() {
    let s = LatexHighlightSettings;
    let mut h = LatexHighlighter::new(&s);
    assert_eq!(h.current_line(), 0);
    assert!(h.can_highlight("$$ open"));
    let t = h.highlight_line("$$ open");
    assert_eq!(t, vec![(0..7, TokenKind::MathBlock)]);
    h.change_line(1);
    assert_eq!(h.current_line(), 1);
    // still inside the block
    assert_eq!(h.highlight_line("x"), vec![(0..1, TokenKind::MathBlock)]);
    h.change_line(0);
    // back at the start: the block is forgotten
    assert_eq!(h.highlight_line("x"), vec![]);
    h.update(&s);
    assert_eq!(h.current_line(), 0);
}

#[test]
fn line_ranges_are_ordered() {
    let lines = ["", "$$", "\\begin{a}[1]{2} % x", "$a$b$$c$$ 3.5 \\\\", "x$$ y", "$$ z $$ \\end"];
    for start in [false, true] {
        let mut m = start;
        for l in lines {
            let t = tokenize_line_hl(l, &mut m);
            for (r, _) in &t {
                assert!(r.start <= r.end && r.end <= l.len());
            }
            for w in t.windows(2) {
                assert!(w[0].0.end <= w[1].0.start);
            }
        }
    }
}
