//! Code page 437: the 256 glyphs of the VGA ROM, and which typed
//! characters can become one of them.

use vstd::prelude::*;
use crate::text::chars_of;

verus! {

/// The character each glyph of the ROM draws, indexed by glyph.
pub const GLYPHS: [char; 256] = [
    '\u{0}', '\u{263a}', '\u{263b}', '\u{2665}', '\u{2666}', '\u{2663}', '\u{2660}', '\u{2022}',
    '\u{25d8}', '\u{25cb}', '\u{25d9}', '\u{2642}', '\u{2640}', '\u{266a}', '\u{266b}', '\u{263c}',
    '\u{25ba}', '\u{25c4}', '\u{2195}', '\u{203c}', '\u{b6}', '\u{a7}', '\u{25ac}', '\u{21a8}',
    '\u{2191}', '\u{2193}', '\u{2192}', '\u{2190}', '\u{221f}', '\u{2194}', '\u{25b2}', '\u{25bc}',
    '\u{20}', '\u{21}', '\u{22}', '\u{23}', '\u{24}', '\u{25}', '\u{26}', '\u{27}',
    '\u{28}', '\u{29}', '\u{2a}', '\u{2b}', '\u{2c}', '\u{2d}', '\u{2e}', '\u{2f}',
    '\u{30}', '\u{31}', '\u{32}', '\u{33}', '\u{34}', '\u{35}', '\u{36}', '\u{37}',
    '\u{38}', '\u{39}', '\u{3a}', '\u{3b}', '\u{3c}', '\u{3d}', '\u{3e}', '\u{3f}',
    '\u{40}', '\u{41}', '\u{42}', '\u{43}', '\u{44}', '\u{45}', '\u{46}', '\u{47}',
    '\u{48}', '\u{49}', '\u{4a}', '\u{4b}', '\u{4c}', '\u{4d}', '\u{4e}', '\u{4f}',
    '\u{50}', '\u{51}', '\u{52}', '\u{53}', '\u{54}', '\u{55}', '\u{56}', '\u{57}',
    '\u{58}', '\u{59}', '\u{5a}', '\u{5b}', '\u{5c}', '\u{5d}', '\u{5e}', '\u{5f}',
    '\u{60}', '\u{61}', '\u{62}', '\u{63}', '\u{64}', '\u{65}', '\u{66}', '\u{67}',
    '\u{68}', '\u{69}', '\u{6a}', '\u{6b}', '\u{6c}', '\u{6d}', '\u{6e}', '\u{6f}',
    '\u{70}', '\u{71}', '\u{72}', '\u{73}', '\u{74}', '\u{75}', '\u{76}', '\u{77}',
    '\u{78}', '\u{79}', '\u{7a}', '\u{7b}', '\u{7c}', '\u{7d}', '\u{7e}', '\u{2302}',
    '\u{c7}', '\u{fc}', '\u{e9}', '\u{e2}', '\u{e4}', '\u{e0}', '\u{e5}', '\u{e7}',
    '\u{ea}', '\u{eb}', '\u{e8}', '\u{ef}', '\u{ee}', '\u{ec}', '\u{c4}', '\u{c5}',
    '\u{c9}', '\u{e6}', '\u{c6}', '\u{f4}', '\u{f6}', '\u{f2}', '\u{fb}', '\u{f9}',
    '\u{ff}', '\u{d6}', '\u{dc}', '\u{a2}', '\u{a3}', '\u{a5}', '\u{20a7}', '\u{192}',
    '\u{e1}', '\u{ed}', '\u{f3}', '\u{fa}', '\u{f1}', '\u{d1}', '\u{aa}', '\u{ba}',
    '\u{bf}', '\u{2310}', '\u{ac}', '\u{bd}', '\u{bc}', '\u{a1}', '\u{ab}', '\u{bb}',
    '\u{2591}', '\u{2592}', '\u{2593}', '\u{2502}', '\u{2524}', '\u{2561}', '\u{2562}', '\u{2556}',
    '\u{2555}', '\u{2563}', '\u{2551}', '\u{2557}', '\u{255d}', '\u{255c}', '\u{255b}', '\u{2510}',
    '\u{2514}', '\u{2534}', '\u{252c}', '\u{251c}', '\u{2500}', '\u{253c}', '\u{255e}', '\u{255f}',
    '\u{255a}', '\u{2554}', '\u{2569}', '\u{2566}', '\u{2560}', '\u{2550}', '\u{256c}', '\u{2567}',
    '\u{2568}', '\u{2564}', '\u{2565}', '\u{2559}', '\u{2558}', '\u{2552}', '\u{2553}', '\u{256b}',
    '\u{256a}', '\u{2518}', '\u{250c}', '\u{2588}', '\u{2584}', '\u{258c}', '\u{2590}', '\u{2580}',
    '\u{3b1}', '\u{df}', '\u{393}', '\u{3c0}', '\u{3a3}', '\u{3c3}', '\u{b5}', '\u{3c4}',
    '\u{3a6}', '\u{398}', '\u{3a9}', '\u{3b4}', '\u{221e}', '\u{3c6}', '\u{3b5}', '\u{2229}',
    '\u{2261}', '\u{b1}', '\u{2265}', '\u{2264}', '\u{2320}', '\u{2321}', '\u{f7}', '\u{2248}',
    '\u{b0}', '\u{2219}', '\u{b7}', '\u{221a}', '\u{207f}', '\u{b2}', '\u{25a0}', '\u{a0}',
];

/// Whether some glyph draws `c`.
pub open spec fn drawable(c: char) -> bool {
    exists|g: u8| #[trigger] GLYPHS@[g as int] == c
}

/// The character that glyph `g` draws.
pub fn decode(g: u8) -> (c: char)
    ensures
        c == GLYPHS@[g as int],
{
    GLYPHS[g as usize]
}

/// Whether `g` is the lowest-numbered glyph that draws `c`.
pub open spec fn first_glyph(g: u8, c: char) -> bool {
    &&& GLYPHS@[g as int] == c
    &&& forall|h: int| 0 <= h < g ==> GLYPHS@[h] != c
}

/// The glyph put on screen for `c`: the one that draws it, or `?` when
/// the ROM has none.
pub open spec fn shows(glyph: u8, c: char) -> bool {
    if drawable(c) {
        first_glyph(glyph, c)
    } else {
        glyph == 0x3F
    }
}

/// The glyph that draws `c`, if the ROM has one.
pub fn encode(c: char) -> (r: Option<u8>)
    ensures
        r matches Some(g) ==> first_glyph(g, c),
        r is None <==> !drawable(c),
{
    let mut g: usize = 0;
    while g < 256
        invariant
            g <= 256,
            forall|h: int| 0 <= h < g ==> GLYPHS@[h] != c,
        decreases 256 - g,
    {
        if GLYPHS[g] == c {
            return Some(g as u8);
        }
        g = g + 1;
    }
    proof {
        assert forall|h: u8| GLYPHS@[h as int] != c by {
            assert(0 <= h as int && (h as int) < 256);
        }
    }
    None
}

/// The glyph to draw for `c`: `?` stands in for what the ROM lacks.
pub fn glyph_of(c: char) -> (g: u8)
    ensures
        shows(g, c),
{
    match encode(c) {
        Some(g) => g,
        None => 0x3F,
    }
}

/// What typing `c` puts into the document: typographic punctuation
/// becomes its plain ASCII form, a character the ROM can draw stays as
/// it is, and anything else (controls included) is dropped.
pub open spec fn typed_form(c: char) -> Seq<char> {
    if c == '\u{2018}' || c == '\u{2019}' || c == '\u{201a}' || c == '\u{2032}' {
        seq!['\'']
    } else if c == '\u{201c}' || c == '\u{201d}' || c == '\u{201e}' || c == '\u{2033}' {
        seq!['"']
    } else if c == '\u{2013}' || c == '\u{2014}' || c == '\u{2212}' {
        seq!['-']
    } else if c == '\u{2026}' {
        seq!['.', '.', '.']
    } else if ' ' <= c && drawable(c) {
        seq![c]
    } else {
        Seq::empty()
    }
}

/// `typed_form` applied to every character of `s`, in order.
pub open spec fn typed(s: Seq<char>) -> Seq<char>
    decreases s.len(),
{
    if s.len() == 0 {
        Seq::empty()
    } else {
        typed(s.drop_last()) + typed_form(s.last())
    }
}

fn push_typed_form(out: &mut Vec<char>, c: char)
    ensures
        final(out)@ == old(out)@ + typed_form(c),
{
    let ghost start = out@;
    if c == '\u{2018}' || c == '\u{2019}' || c == '\u{201a}' || c == '\u{2032}' {
        out.push('\'');
    } else if c == '\u{201c}' || c == '\u{201d}' || c == '\u{201e}' || c == '\u{2033}' {
        out.push('"');
    } else if c == '\u{2013}' || c == '\u{2014}' || c == '\u{2212}' {
        out.push('-');
    } else if c == '\u{2026}' {
        out.push('.');
        out.push('.');
        out.push('.');
    } else if ' ' <= c {
        if encode(c).is_some() {
            out.push(c);
        }
    }
    proof {
        assert(out@ =~= start + typed_form(c));
    }
}

/// Filters typed text through the code page, so the document only ever
/// holds characters the screen can draw.
pub fn accept_text(text: &str) -> (v: Vec<char>)
    ensures
        v@ == typed(text@),
{
    let cs = chars_of(text);
    let mut out: Vec<char> = Vec::new();
    let mut i: usize = 0;
    while i < cs.len()
        invariant
            i <= cs@.len(),
            cs@ == text@,
            out@ == typed(cs@.take(i as int)),
        decreases cs@.len() - i,
    {
        proof {
            assert(cs@.take(i + 1).drop_last() =~= cs@.take(i as int));
        }
        push_typed_form(&mut out, cs[i]);
        i = i + 1;
    }
    proof {
        assert(cs@.take(i as int) =~= cs@);
    }
    out
}

/// What typing one character yields is drawable, and no control.
proof fn lemma_typed_form_drawable(c: char)
    ensures
        forall|i: int| 0 <= i < typed_form(c).len() ==> drawable(#[trigger] typed_form(c)[i]) && ' ' <= typed_form(c)[i],
{
    assert(drawable('\'')) by {
        assert(GLYPHS@[0x27u8 as int] == '\'');
    }
    assert(drawable('"')) by {
        assert(GLYPHS@[0x22u8 as int] == '"');
    }
    assert(drawable('-')) by {
        assert(GLYPHS@[0x2du8 as int] == '-');
    }
    assert(drawable('.')) by {
        assert(GLYPHS@[0x2eu8 as int] == '.');
    }
}

/// Typing only ever puts characters the screen can draw into the
/// document: never a control, never a character the ROM has no glyph
/// for.
pub proof fn law_typing_yields_only_drawable_characters(s: Seq<char>)
    ensures
        forall|i: int| 0 <= i < typed(s).len() ==> drawable(#[trigger] typed(s)[i]) && ' ' <= typed(s)[i],
    decreases s.len(),
{
    if s.len() > 0 {
        law_typing_yields_only_drawable_characters(s.drop_last());
        lemma_typed_form_drawable(s.last());
        let a = typed(s.drop_last());
        let b = typed_form(s.last());
        assert forall|i: int| 0 <= i < typed(s).len() implies drawable(#[trigger] typed(s)[i]) && ' ' <= typed(s)[i] by {
            if i < a.len() {
                assert(typed(s)[i] == a[i]);
            } else {
                assert(typed(s)[i] == b[i - a.len()]);
            }
        }
    }
}

/// Typing text in two pieces puts in exactly what typing it at once
/// does: each character is taken or turned into its plain form on its
/// own, whatever comes before or after it.
pub proof fn law_typing_goes_character_by_character(a: Seq<char>, b: Seq<char>)
    ensures
        typed(a + b) == typed(a) + typed(b),
    decreases b.len(),
{
    if b.len() == 0 {
        assert(a + b =~= a);
        assert(typed(b) =~= Seq::<char>::empty());
        assert(typed(a) + typed(b) =~= typed(a));
    } else {
        law_typing_goes_character_by_character(a, b.drop_last());
        assert((a + b).drop_last() =~= a + b.drop_last());
        assert((a + b).last() == b.last());
        assert(typed(a) + typed(b.drop_last()) + typed_form(b.last()) =~= typed(a) + (typed(b.drop_last()) + typed_form(
            b.last(),
        )));
    }
}

} // verus!
