//! Text with an ordered list of applied SGR styles, and its rendering.
use vstd::prelude::*;

use crate::terminal::stdout_supports_color;
use crate::sgr::{
    dec, entry_at_front, entry_len, is_extended, is_simple, join, lemma_concat, lemma_join_push,
    push_listed, reset_code, reset_of, resets, well_formed,
};

verus! {

/// The two characters that open every escape sequence: ESC and `[`.
pub open spec fn csi() -> Seq<char> {
    seq!['\x1B', '[']
}

/// What rendering `text` with the codes `codes` gives: the text itself when
/// no style is applied or color is not supported, else the style sequence,
/// the text and the reset sequence.
pub open spec fn rendered(text: Seq<char>, codes: Seq<u8>, color_supported: bool) -> Seq<char> {
    if codes.len() == 0 || !color_supported {
        text
    } else {
        csi() + join(codes) + seq!['m'] + text + csi() + join(resets(codes)) + seq!['m']
    }
}

/// Text with no style applied renders as itself, whether or not color is
/// supported.
pub proof fn lemma_unstyled_verbatim(s: Seq<char>, color_supported: bool)
    ensures
        rendered(s, Seq::empty(), color_supported) == s,
{
}

/// Where color is not supported, text renders as itself whatever styles are
/// applied.
pub proof fn lemma_no_color_verbatim(s: Seq<char>, codes: Seq<u8>)
    requires
        codes.len() > 0,
    ensures
        rendered(s, codes, false) == s,
{
}

/// One simple style with color supported: the style's code, the text, then
/// the style's reset code; for bold that is `ESC[1m`, the text, `ESC[22m`.
pub proof fn lemma_single_style(s: Seq<char>, c: u8)
    requires
        is_simple(c),
    ensures
        rendered(s, seq![c], true) == csi() + dec(c as nat) + seq!['m'] + s + csi() + dec(
            reset_of(c) as nat,
        ) + seq!['m'],
        c == 1 ==> rendered(s, seq![c], true) == seq!['\x1B', '[', '1', 'm'] + s + seq![
            '\x1B',
            '[',
            '2',
            '2',
            'm',
        ],
{
    let codes = seq![c];
    assert(codes.skip(1) =~= Seq::<u8>::empty());
    assert(resets(codes.skip(1)) == Seq::<u8>::empty());
    assert(resets(codes) =~= seq![reset_of(c)]);
    reveal_with_fuel(dec, 2);
    if c == 1 {
        assert(rendered(s, codes, true) =~= seq!['\x1B', '[', '1', 'm'] + s + seq![
            '\x1B',
            '[',
            '2',
            '2',
            'm',
        ]);
    }
}

/// Red foreground then blue background: both codes in order of application,
/// and their resets in the same order, `ESC[31;44m`, the text, `ESC[39;49m`.
pub proof fn lemma_red_on_blue(s: Seq<char>)
    ensures
        rendered(s, seq![31u8, 44u8], true) == seq!['\x1B', '[', '3', '1', ';', '4', '4', 'm'] + s
            + seq!['\x1B', '[', '3', '9', ';', '4', '9', 'm'],
{
    let codes = seq![31u8, 44u8];
    assert(codes.skip(1) =~= seq![44u8]);
    assert(codes.skip(1).skip(1) =~= Seq::<u8>::empty());
    assert(resets(codes.skip(1).skip(1)) == Seq::<u8>::empty());
    assert(resets(codes.skip(1)) =~= seq![49u8]);
    assert(resets(codes) =~= seq![39u8, 49u8]);
    assert(codes.drop_last() =~= seq![31u8]);
    assert(seq![39u8, 49u8].drop_last() =~= seq![39u8]);
    reveal_with_fuel(dec, 2);
    assert(dec(31) =~= seq!['3', '1']);
    assert(dec(44) =~= seq!['4', '4']);
    assert(dec(39) =~= seq!['3', '9']);
    assert(dec(49) =~= seq!['4', '9']);
    assert(join(seq![31u8]) == dec(31));
    assert(join(seq![39u8]) == dec(39));
    assert(join(codes) =~= seq!['3', '1', ';', '4', '4']);
    assert(join(seq![39u8, 49u8]) =~= seq!['3', '9', ';', '4', '9']);
    assert(rendered(s, codes, true) =~= seq!['\x1B', '[', '3', '1', ';', '4', '4', 'm'] + s
        + seq!['\x1B', '[', '3', '9', ';', '4', '9', 'm']);
}

/// An 8-bit palette color: the extended code, mode 5 and the index joined
/// by `;`, and one reset code, 39 for the foreground and 49 for the
/// background.
pub proof fn lemma_palette_color(s: Seq<char>, base: u8, index: u8)
    requires
        is_extended(base),
    ensures
        rendered(s, seq![base, 5u8, index], true) == csi() + dec(base as nat) + seq![';', '5', ';']
            + dec(index as nat) + seq!['m'] + s + csi() + dec(reset_of(base) as nat) + seq!['m'],
        reset_of(base) == if base == 38 {
            39u8
        } else {
            49u8
        },
{
    let codes = seq![base, 5u8, index];
    assert(codes.skip(3) =~= Seq::<u8>::empty());
    assert(resets(codes.skip(3)) == Seq::<u8>::empty());
    assert(resets(codes) =~= seq![reset_of(base)]);
    assert(codes.drop_last() =~= seq![base, 5u8]);
    assert(codes.drop_last().drop_last() =~= seq![base]);
    assert(join(seq![reset_of(base)]) == dec(reset_of(base) as nat));
    assert(join(seq![base]) == dec(base as nat));
    assert(dec(5) =~= seq!['5']);
    assert(join(seq![base, 5u8]) == dec(base as nat) + seq![';'] + dec(5));
    assert(join(codes) =~= dec(base as nat) + seq![';', '5', ';'] + dec(index as nat));
    assert(rendered(s, codes, true) =~= csi() + dec(base as nat) + seq![';', '5', ';'] + dec(
        index as nat,
    ) + seq!['m'] + s + csi() + dec(reset_of(base) as nat) + seq!['m']);
}

/// A 24-bit color: the extended code, mode 2 and the three components
/// joined by `;`, and one reset code, 39 for the foreground and 49 for the
/// background.
pub proof fn lemma_true_color(s: Seq<char>, base: u8, red: u8, green: u8, blue: u8)
    requires
        is_extended(base),
    ensures
        rendered(s, seq![base, 2u8, red, green, blue], true) == csi() + dec(base as nat) + seq![
            ';',
            '2',
            ';',
        ] + dec(red as nat) + seq![';'] + dec(green as nat) + seq![';'] + dec(blue as nat)
            + seq!['m'] + s + csi() + dec(reset_of(base) as nat) + seq!['m'],
        reset_of(base) == if base == 38 {
            39u8
        } else {
            49u8
        },
{
    let codes = seq![base, 2u8, red, green, blue];
    assert(codes.skip(5) =~= Seq::<u8>::empty());
    assert(resets(codes.skip(5)) == Seq::<u8>::empty());
    assert(resets(codes) =~= seq![reset_of(base)]);
    assert(codes.drop_last() =~= seq![base, 2u8, red, green]);
    assert(codes.drop_last().drop_last() =~= seq![base, 2u8, red]);
    assert(codes.drop_last().drop_last().drop_last() =~= seq![base, 2u8]);
    assert(codes.drop_last().drop_last().drop_last().drop_last() =~= seq![base]);
    assert(join(seq![reset_of(base)]) == dec(reset_of(base) as nat));
    assert(join(seq![base]) == dec(base as nat));
    assert(dec(2) =~= seq!['2']);
    assert(join(seq![base, 2u8]) == dec(base as nat) + seq![';'] + dec(2));
    assert(join(seq![base, 2u8, red]) =~= dec(base as nat) + seq![';', '2', ';'] + dec(red as nat));
    assert(join(seq![base, 2u8, red, green]) == join(seq![base, 2u8, red]) + seq![';'] + dec(
        green as nat,
    ));
    assert(join(codes) =~= dec(base as nat) + seq![';', '2', ';'] + dec(red as nat) + seq![';']
        + dec(green as nat) + seq![';'] + dec(blue as nat));
    assert(rendered(s, codes, true) =~= csi() + dec(base as nat) + seq![';', '2', ';'] + dec(
        red as nat,
    ) + seq![';'] + dec(green as nat) + seq![';'] + dec(blue as nat) + seq!['m'] + s + csi()
        + dec(reset_of(base) as nat) + seq!['m']);
}

/// Rendering is a function of the text, the codes and the color answer:
/// two renderings of one value under the same answer are equal.
pub proof fn lemma_render_idempotent(t: &StyledText, color_supported: bool, r1: Seq<char>, r2: Seq<char>)
    requires
        r1 == rendered(t.text(), t.codes(), color_supported),
        r2 == rendered(t.text(), t.codes(), color_supported),
    ensures
        r1 == r2,
{
}

/// Appending one complete entry to a well-formed sequence keeps it
/// well-formed and adds the entry's reset code at the end of the resets,
/// also where the same style was applied before: resets are never merged.
pub proof fn lemma_append_entry(s: Seq<u8>, e: Seq<u8>)
    requires
        well_formed(s),
        entry_at_front(e),
        entry_len(e) == e.len(),
    ensures
        well_formed(s + e),
        resets(s + e) == resets(s).push(reset_of(e[0])),
{
    let rest = e.skip(entry_len(e));
    assert(rest =~= Seq::<u8>::empty());
    assert(well_formed(rest));
    assert(resets(rest) == Seq::<u8>::empty());
    assert(resets(e) =~= seq![reset_of(e[0])]);
    lemma_concat(s, e);
}

/// Appends the code `codes[i]` to a rendering of the first `i` codes as a
/// `;`-separated list.
fn push_code_at(out: &mut String, codes: &Vec<u8>, i: usize, Ghost(head): Ghost<Seq<char>>)
    requires
        i < codes@.len(),
        old(out)@ == head + join(codes@.take(i as int)),
    ensures
        final(out)@ == head + join(codes@.take(i + 1)),
{
    let c = codes[i];
    push_listed(out, i == 0, c);
    proof {
        assert(codes@.take(i as int).push(c) =~= codes@.take(i + 1));
        lemma_join_push(codes@.take(i as int), c);
        if i == 0 {
            assert(codes@.take(0) =~= Seq::<u8>::empty());
        }
        assert(out@ =~= head + join(codes@.take(i + 1)));
    }
}

/// A piece of text and the SGR codes applied to it, in order of application.
pub struct StyledText {
    original: String,
    codes: Vec<u8>,
}

impl StyledText {
    /// The text to be styled.
    pub closed spec fn text(&self) -> Seq<char> {
        self.original@
    }

    /// The applied codes, in order.
    pub closed spec fn codes(&self) -> Seq<u8> {
        self.codes@
    }

    /// The codes split into complete entries.
    pub closed spec fn wf(&self) -> bool {
        well_formed(self.codes@)
    }

    /// Text with no style applied.
    pub fn new(s: String) -> (r: Self)
        ensures
            r.wf(),
            r.text() == s@,
            r.codes() == Seq::<u8>::empty(),
    {
        StyledText { original: s, codes: Vec::new() }
    }

    fn push_simple(&mut self, c: u8)
        requires
            old(self).wf(),
            is_simple(c),
        ensures
            final(self).wf(),
            final(self).text() == old(self).text(),
            final(self).codes() == old(self).codes().push(c),
    {
        proof {
            lemma_append_entry(self.codes@, seq![c]);
            assert(self.codes@ + seq![c] =~= self.codes@.push(c));
        }
        self.codes.push(c);
    }

    /// Bold: appends code 1.
    pub fn bold(&mut self)
        requires
            old(self).wf(),
        ensures
            final(self).wf(),
            final(self).text() == old(self).text(),
            final(self).codes() == old(self).codes().push(1),
    {
        self.push_simple(1);
    }

    /// Dim (faint): appends code 2.
    pub fn dim(&mut self)
        requires
            old(self).wf(),
        ensures
            final(self).wf(),
            final(self).text() == old(self).text(),
            final(self).codes() == old(self).codes().push(2),
    {
        self.push_simple(2);
    }

    /// Italic: appends code 3.
    pub fn italic(&mut self)
        requires
            old(self).wf(),
        ensures
            final(self).wf(),
            final(self).text() == old(self).text(),
            final(self).codes() == old(self).codes().push(3),
    {
        self.push_simple(3);
    }

    /// Underline: appends code 4.
    pub fn underline(&mut self)
        requires
            old(self).wf(),
        ensures
            final(self).wf(),
            final(self).text() == old(self).text(),
            final(self).codes() == old(self).codes().push(4),
    {
        self.push_simple(4);
    }

    /// Blink: appends code 5.
    pub fn blink(&mut self)
        requires
            old(self).wf(),
        ensures
            final(self).wf(),
            final(self).text() == old(self).text(),
            final(self).codes() == old(self).codes().push(5),
    {
        self.push_simple(5);
    }

    /// Inverse (swapped foreground and background): appends code 7.
    pub fn inverse(&mut self)
        requires
            old(self).wf(),
        ensures
            final(self).wf(),
            final(self).text() == old(self).text(),
            final(self).codes() == old(self).codes().push(7),
    {
        self.push_simple(7);
    }

    /// Hidden: appends code 8.
    pub fn hidden(&mut self)
        requires
            old(self).wf(),
        ensures
            final(self).wf(),
            final(self).text() == old(self).text(),
            final(self).codes() == old(self).codes().push(8),
    {
        self.push_simple(8);
    }

    /// Strikethrough: appends code 9.
    pub fn strikethrough(&mut self)
        requires
            old(self).wf(),
        ensures
            final(self).wf(),
            final(self).text() == old(self).text(),
            final(self).codes() == old(self).codes().push(9),
    {
        self.push_simple(9);
    }

    /// Black foreground: appends code 30.
    pub fn black(&mut self)
        requires
            old(self).wf(),
        ensures
            final(self).wf(),
            final(self).text() == old(self).text(),
            final(self).codes() == old(self).codes().push(30),
    {
        self.push_simple(30);
    }

    /// Red foreground: appends code 31.
    pub fn red(&mut self)
        requires
            old(self).wf(),
        ensures
            final(self).wf(),
            final(self).text() == old(self).text(),
            final(self).codes() == old(self).codes().push(31),
    {
        self.push_simple(31);
    }

    /// Green foreground: appends code 32.
    pub fn green(&mut self)
        requires
            old(self).wf(),
        ensures
            final(self).wf(),
            final(self).text() == old(self).text(),
            final(self).codes() == old(self).codes().push(32),
    {
        self.push_simple(32);
    }

    /// Yellow foreground: appends code 33.
    pub fn yellow(&mut self)
        requires
            old(self).wf(),
        ensures
            final(self).wf(),
            final(self).text() == old(self).text(),
            final(self).codes() == old(self).codes().push(33),
    {
        self.push_simple(33);
    }

    /// Blue foreground: appends code 34.
    pub fn blue(&mut self)
        requires
            old(self).wf(),
        ensures
            final(self).wf(),
            final(self).text() == old(self).text(),
            final(self).codes() == old(self).codes().push(34),
    {
        self.push_simple(34);
    }

    /// Magenta foreground: appends code 35.
    pub fn magenta(&mut self)
        requires
            old(self).wf(),
        ensures
            final(self).wf(),
            final(self).text() == old(self).text(),
            final(self).codes() == old(self).codes().push(35),
    {
        self.push_simple(35);
    }

    /// Cyan foreground: appends code 36.
    pub fn cyan(&mut self)
        requires
            old(self).wf(),
        ensures
            final(self).wf(),
            final(self).text() == old(self).text(),
            final(self).codes() == old(self).codes().push(36),
    {
        self.push_simple(36);
    }

    /// White foreground: appends code 37.
    pub fn white(&mut self)
        requires
            old(self).wf(),
        ensures
            final(self).wf(),
            final(self).text() == old(self).text(),
            final(self).codes() == old(self).codes().push(37),
    {
        self.push_simple(37);
    }

    /// Black background: appends code 40.
    pub fn on_black(&mut self)
        requires
            old(self).wf(),
        ensures
            final(self).wf(),
            final(self).text() == old(self).text(),
            final(self).codes() == old(self).codes().push(40),
    {
        self.push_simple(40);
    }

    /// Red background: appends code 41.
    pub fn on_red(&mut self)
        requires
            old(self).wf(),
        ensures
            final(self).wf(),
            final(self).text() == old(self).text(),
            final(self).codes() == old(self).codes().push(41),
    {
        self.push_simple(41);
    }

    /// Green background: appends code 42.
    pub fn on_green(&mut self)
        requires
            old(self).wf(),
        ensures
            final(self).wf(),
            final(self).text() == old(self).text(),
            final(self).codes() == old(self).codes().push(42),
    {
        self.push_simple(42);
    }

    /// Yellow background: appends code 43.
    pub fn on_yellow(&mut self)
        requires
            old(self).wf(),
        ensures
            final(self).wf(),
            final(self).text() == old(self).text(),
            final(self).codes() == old(self).codes().push(43),
    {
        self.push_simple(43);
    }

    /// Blue background: appends code 44.
    pub fn on_blue(&mut self)
        requires
            old(self).wf(),
        ensures
            final(self).wf(),
            final(self).text() == old(self).text(),
            final(self).codes() == old(self).codes().push(44),
    {
        self.push_simple(44);
    }

    /// Magenta background: appends code 45.
    pub fn on_magenta(&mut self)
        requires
            old(self).wf(),
        ensures
            final(self).wf(),
            final(self).text() == old(self).text(),
            final(self).codes() == old(self).codes().push(45),
    {
        self.push_simple(45);
    }

    /// Cyan background: appends code 46.
    pub fn on_cyan(&mut self)
        requires
            old(self).wf(),
        ensures
            final(self).wf(),
            final(self).text() == old(self).text(),
            final(self).codes() == old(self).codes().push(46),
    {
        self.push_simple(46);
    }

    /// White background: appends code 47.
    pub fn on_white(&mut self)
        requires
            old(self).wf(),
        ensures
            final(self).wf(),
            final(self).text() == old(self).text(),
            final(self).codes() == old(self).codes().push(47),
    {
        self.push_simple(47);
    }

    /// An 8-bit palette color as foreground: appends 38, 5 and the index.
    pub fn color256(&mut self, color: u8)
        requires
            old(self).wf(),
        ensures
            final(self).wf(),
            final(self).text() == old(self).text(),
            final(self).codes() == old(self).codes() + seq![38u8, 5u8, color],
    {
        proof {
            lemma_append_entry(self.codes@, seq![38u8, 5u8, color]);
        }
        self.codes.push(38);
        self.codes.push(5);
        self.codes.push(color);
        assert(self.codes@ =~= old(self).codes@ + seq![38u8, 5u8, color]);
    }

    /// A 24-bit color as foreground: appends 38, 2 and the red, green and
    /// blue components.
    pub fn true_color(&mut self, red: u8, green: u8, blue: u8)
        requires
            old(self).wf(),
        ensures
            final(self).wf(),
            final(self).text() == old(self).text(),
            final(self).codes() == old(self).codes() + seq![38u8, 2u8, red, green, blue],
    {
        proof {
            lemma_append_entry(self.codes@, seq![38u8, 2u8, red, green, blue]);
        }
        self.codes.push(38);
        self.codes.push(2);
        self.codes.push(red);
        self.codes.push(green);
        self.codes.push(blue);
        assert(self.codes@ =~= old(self).codes@ + seq![38u8, 2u8, red, green, blue]);
    }

    /// An 8-bit palette color as background: appends 48, 5 and the index.
    pub fn on_color256(&mut self, color: u8)
        requires
            old(self).wf(),
        ensures
            final(self).wf(),
            final(self).text() == old(self).text(),
            final(self).codes() == old(self).codes() + seq![48u8, 5u8, color],
    {
        proof {
            lemma_append_entry(self.codes@, seq![48u8, 5u8, color]);
        }
        self.codes.push(48);
        self.codes.push(5);
        self.codes.push(color);
        assert(self.codes@ =~= old(self).codes@ + seq![48u8, 5u8, color]);
    }

    /// A 24-bit color as background: appends 48, 2 and the red, green and
    /// blue components.
    pub fn on_true_color(&mut self, red: u8, green: u8, blue: u8)
        requires
            old(self).wf(),
        ensures
            final(self).wf(),
            final(self).text() == old(self).text(),
            final(self).codes() == old(self).codes() + seq![48u8, 2u8, red, green, blue],
    {
        proof {
            lemma_append_entry(self.codes@, seq![48u8, 2u8, red, green, blue]);
        }
        self.codes.push(48);
        self.codes.push(2);
        self.codes.push(red);
        self.codes.push(green);
        self.codes.push(blue);
        assert(self.codes@ =~= old(self).codes@ + seq![48u8, 2u8, red, green, blue]);
    }

    /// The text wrapped in the style and reset sequences when
    /// `color_supported` holds and a style is applied; the text alone
    /// otherwise.
    pub fn render_with(&self, color_supported: bool) -> (r: String)
        requires
            self.wf(),
        ensures
            r@ == rendered(self.text(), self.codes(), color_supported),
    {
        let n = self.codes.len();
        if n == 0 || !color_supported {
            return self.original.clone();
        }
        let ghost codes = self.codes@;
        proof {
            reveal_strlit("\x1B[");
        }
        let mut out = String::from_str("\x1B[");
        let mut reset_list: Vec<u8> = Vec::new();
        let mut i: usize = 0;
        proof {
            assert(codes.skip(0) =~= codes);
            assert(codes.take(0) =~= Seq::<u8>::empty());
            assert(out@ =~= csi() + join(codes.take(0)));
        }
        // Style pass: each entry's codes, all separated by `;`, and the
        // entry's reset code set aside.
        while i < n
            invariant
                n == codes.len(),
                codes == self.codes@,
                i <= n,
                well_formed(codes.skip(i as int)),
                resets(codes) == reset_list@ + resets(codes.skip(i as int)),
                out@ == csi() + join(codes.take(i as int)),
            decreases n - i,
        {
            let ghost rest = codes.skip(i as int);
            let ghost start = i as int;
            let c = self.codes[i];
            assert(entry_at_front(rest));
            assert(rest[0] == c);
            reset_list.push(reset_code(c));
            push_code_at(&mut out, &self.codes, i, Ghost(csi()));
            i = i + 1;
            if c == 38 || c == 48 {
                assert(rest[1] == self.codes@[i as int]);
                let mode = self.codes[i];
                push_code_at(&mut out, &self.codes, i, Ghost(csi()));
                i = i + 1;
                push_code_at(&mut out, &self.codes, i, Ghost(csi()));
                i = i + 1;
                if mode != 5 {
                    push_code_at(&mut out, &self.codes, i, Ghost(csi()));
                    i = i + 1;
                    push_code_at(&mut out, &self.codes, i, Ghost(csi()));
                    i = i + 1;
                }
            }
            proof {
                assert(i == start + entry_len(rest));
                assert(codes.skip(i as int) =~= rest.skip(entry_len(rest)));
                assert(resets(rest) == seq![reset_of(c)] + resets(codes.skip(i as int)));
                assert(resets(codes) =~= reset_list@ + resets(codes.skip(i as int)));
            }
        }
        proof {
            assert(codes.take(n as int) =~= codes);
            assert(codes.skip(n as int) =~= Seq::<u8>::empty());
            assert(reset_list@ =~= resets(codes));
            reveal_strlit("m");
        }
        out.append("m");
        out.append(self.original.as_str());
        out.append("\x1B[");
        let ghost head = out@;
        // Reset pass: the reset codes in the order of their entries.
        let k = reset_list.len();
        let mut j: usize = 0;
        assert(reset_list@.take(0) =~= Seq::<u8>::empty());
        while j < k
            invariant
                k == reset_list@.len(),
                j <= k,
                out@ == head + join(reset_list@.take(j as int)),
            decreases k - j,
        {
            push_code_at(&mut out, &reset_list, j, Ghost(head));
            j = j + 1;
        }
        out.append("m");
        proof {
            assert(reset_list@.take(k as int) =~= reset_list@);
            assert(out@ =~= rendered(self.text(), self.codes(), color_supported));
        }
        out
    }

    /// The rendering for standard output: asks once whether it supports
    /// color and renders accordingly.
    pub fn render(&self) -> (r: String)
        requires
            self.wf(),
        ensures
            r@ == rendered(self.text(), self.codes(), true) || r@ == rendered(
                self.text(),
                self.codes(),
                false,
            ),
    {
        let color_supported = stdout_supports_color();
        self.render_with(color_supported)
    }

} // impl StyledText

} // verus!
