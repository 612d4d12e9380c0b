use colorize::styled::StyledText;

fn text(s: &str) -> StyledText {
    StyledText::new(s.to_string())
}

#[test]
fn unstyled_text_renders_verbatim() {
    for s in ["", "hello", "a;b\x1B[m", "héllo wörld"] {
        let t = text(s);
        assert_eq!(t.render_with(true), s);
        assert_eq!(t.render_with(false), s);
        assert_eq!(t.render(), s);
    }
}

#[test]
fn styles_suppressed_without_color() {
    let mut t = text("plain");
    t.bold();
    t.red();
    t.on_true_color(1, 2, 3);
    t.color256(9);
    assert_eq!(t.render_with(false), "plain");
}

#[test]
fn bold_wraps_text() {
    let mut t = text("hi");
    t.bold();
    assert_eq!(t.render_with(true), "\x1B[1mhi\x1B[22m");
}

#[test]
fn red_then_on_blue() {
    let mut t = text("x");
    t.red();
    t.on_blue();
    assert_eq!(t.render_with(true), "\x1B[31;44mx\x1B[39;49m");
}

#[test]
fn on_blue_then_red_keeps_order() {
    let mut t = text("x");
    t.on_blue();
    t.red();
    assert_eq!(t.render_with(true), "\x1B[44;31mx\x1B[49;39m");
}

#[test]
fn color256_segment() {
    let mut t = text("c");
    t.color256(200);
    assert_eq!(t.render_with(true), "\x1B[38;5;200mc\x1B[39m");
}

#[test]
fn on_true_color_segment() {
    let mut t = text("c");
    t.on_true_color(10, 20, 30);
    assert_eq!(t.render_with(true), "\x1B[48;2;10;20;30mc\x1B[49m");
}

#[test]
fn bold_twice_not_merged() {
    let mut t = text("b");
    t.bold();
    t.bold();
    assert_eq!(t.render_with(true), "\x1B[1;1mb\x1B[22;22m");
}

#[test]
fn rendering_twice_is_identical() {
    let mut t = text("same");
    t.italic();
    t.on_color256(17);
    let first = t.render_with(true);
    let second = t.render_with(true);
    assert_eq!(first, second);
    assert_eq!(first, "\x1B[3;48;5;17msame\x1B[23;49m");
    assert_eq!(t.render_with(false), t.render_with(false));
}

#[test]
fn render_gives_one_of_two_forms() {
    let mut t = text("probe");
    t.green();
    let r = t.render();
    assert!(r == "probe" || r == "\x1B[32mprobe\x1B[39m");
}

#[test]
fn attribute_codes_and_resets() {
    let cases: Vec<(fn(&mut StyledText), &str)> = vec![
        (StyledText::bold, "\x1B[1mt\x1B[22m"),
        (StyledText::dim, "\x1B[2mt\x1B[22m"),
        (StyledText::italic, "\x1B[3mt\x1B[23m"),
        (StyledText::underline, "\x1B[4mt\x1B[24m"),
        (StyledText::blink, "\x1B[5mt\x1B[25m"),
        (StyledText::inverse, "\x1B[7mt\x1B[27m"),
        (StyledText::hidden, "\x1B[8mt\x1B[28m"),
        (StyledText::strikethrough, "\x1B[9mt\x1B[29m"),
    ];
    for (apply, expected) in cases {
        let mut t = text("t");
        apply(&mut t);
        assert_eq!(t.render_with(true), expected);
    }
}

#[test]
fn basic_color_codes_and_resets() {
    let fg: Vec<fn(&mut StyledText)> = vec![
        StyledText::black,
        StyledText::red,
        StyledText::green,
        StyledText::yellow,
        StyledText::blue,
        StyledText::magenta,
        StyledText::cyan,
        StyledText::white,
    ];
    let bg: Vec<fn(&mut StyledText)> = vec![
        StyledText::on_black,
        StyledText::on_red,
        StyledText::on_green,
        StyledText::on_yellow,
        StyledText::on_blue,
        StyledText::on_magenta,
        StyledText::on_cyan,
        StyledText::on_white,
    ];
    for (i, apply) in fg.iter().enumerate() {
        let mut t = text("t");
        apply(&mut t);
        assert_eq!(t.render_with(true), format!("\x1B[{}mt\x1B[39m", 30 + i));
    }
    for (i, apply) in bg.iter().enumerate() {
        let mut t = text("t");
        apply(&mut t);
        assert_eq!(t.render_with(true), format!("\x1B[{}mt\x1B[49m", 40 + i));
    }
}

#[test]
fn dim_and_bold_share_reset() {
    let mut t = text("d");
    t.dim();
    t.bold();
    assert_eq!(t.render_with(true), "\x1B[2;1md\x1B[22;22m");
}

#[test]
fn palette_index_edges() {
    for (index, digits) in [(0u8, "0"), (5, "5"), (9, "9"), (10, "10"), (99, "99"), (100, "100"), (255, "255")] {
        let mut t = text("p");
        t.color256(index);
        assert_eq!(t.render_with(true), format!("\x1B[38;5;{}mp\x1B[39m", digits));
        let mut u = text("p");
        u.on_color256(index);
        assert_eq!(u.render_with(true), format!("\x1B[48;5;{}mp\x1B[49m", digits));
    }
}

#[test]
fn foreground_true_color() {
    let mut t = text("rgb");
    t.true_color(255, 0, 128);
    assert_eq!(t.render_with(true), "\x1B[38;2;255;0;128mrgb\x1B[39m");
}

#[test]
fn mixed_styles_in_order() {
    let mut t = text("mix");
    t.underline();
    t.true_color(1, 22, 203);
    t.on_color256(0);
    t.strikethrough();
    t.red();
    t.green();
    assert_eq!(
        t.render_with(true),
        "\x1B[4;38;2;1;22;203;48;5;0;9;31;32mmix\x1B[24;39;49;29;39;39m"
    );
}

#[test]
fn empty_text_with_style() {
    let mut t = text("");
    t.cyan();
    assert_eq!(t.render_with(true), "\x1B[36m\x1B[39m");
}
