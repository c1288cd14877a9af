//! The markup codec: how a block's decorations, click actions and text
//! become the one line of renderer input, in either of the two supported
//! dialects.
//!
//! A run of text is rendered as a stack: every attribute and action is
//! opened before the body and closed after it, innermost first. The
//! dialects differ only in attribute syntax, in whether actions need a
//! matching close, and in color literals.

use vstd::prelude::*;

use crate::action::{spec_encode, Action};
use crate::block::{Actions, Block, BlockText, TextDecorations};
use crate::color::{lemonbar_code, zelbar_code, Color};
use crate::digits::{spec_dec, u64_to_dec};
use crate::events::MouseButton;
use crate::model::Alignment;
use crate::text::{append_str, push_char, str_eq};

verus! {

// ---------------------------------------------------------------------------
// the two renderer programs
// ---------------------------------------------------------------------------

/// Which external renderer the line is written for.
#[derive(Debug, Clone, Copy, PartialEq, Eq, Structural)]
pub enum Program {
    Lemonbar,
    Zelbar,
}

impl Program {
    /// The renderer's executable name.
    pub fn as_str(&self) -> (r: &'static str)
        ensures
            *self is Lemonbar ==> r@ == "lemonbar"@,
            *self is Zelbar ==> r@ == "zelbar"@,
    {
        match self {
            Program::Lemonbar => "lemonbar",
            Program::Zelbar => "zelbar",
        }
    }

    /// The renderer a command line names, or `None`.
    pub fn from_name(s: &str) -> (r: Option<Program>)
        ensures
            r == Some(Program::Lemonbar) <==> s@ == "lemonbar"@,
            r == Some(Program::Zelbar) <==> s@ == "zelbar"@,
            r is None <==> !(s@ == "lemonbar"@ || s@ == "zelbar"@),
    {
        proof {
            reveal_strlit("lemonbar");
            reveal_strlit("zelbar");
            assert("lemonbar"@.len() == 8 && "zelbar"@.len() == 6);
        }
        if str_eq(s, "lemonbar") {
            Some(Program::Lemonbar)
        } else if str_eq(s, "zelbar") {
            Some(Program::Zelbar)
        } else {
            None
        }
    }
}

impl Default for Program {
    /// The renderer used when none is asked for.
    fn default() -> (r: Self)
        ensures
            r == Program::Lemonbar,
    {
        Program::Lemonbar
    }
}

/// A color paired with the renderer it will be written for.
pub struct DisplayColor(pub Color, pub Program);

impl DisplayColor {
    /// A color to be written for `program`.
    pub fn new(color: Color, program: Program) -> (r: Self)
        ensures
            r.0 == color,
            r.1 == program,
    {
        DisplayColor(color, program)
    }

    /// A color in the lemonbar dialect.
    pub fn lemonbar(color: Color) -> (r: Self)
        ensures
            r.0 == color,
            r.1 == Program::Lemonbar,
    {
        DisplayColor(color, Program::Lemonbar)
    }

    /// A color in the zelbar dialect.
    pub fn zelbar(color: Color) -> (r: Self)
        ensures
            r.0 == color,
            r.1 == Program::Zelbar,
    {
        DisplayColor(color, Program::Zelbar)
    }

    /// The color literal: `#RRGGBB`-form for lemonbar, `0xRRGGBB`-form
    /// for zelbar.
    pub fn show(&self) -> (r: String)
        ensures
            self.1 is Lemonbar ==> r@ == lemonbar_code(self.0),
            self.1 is Zelbar ==> r@ == zelbar_code(self.0),
    {
        match self.1 {
            Program::Lemonbar => self.0.to_code(),
            Program::Zelbar => self.0.to_hex(),
        }
    }
}

// ---------------------------------------------------------------------------
// marks: what a run opens around its body
// ---------------------------------------------------------------------------

/// One attribute or action opened around a run's body, in opening order.
pub enum Mark {
    Offset(Seq<char>),
    Bg(Color),
    Fg(Color),
    Underline(Color),
    Font(Seq<char>),
    /// A click action: the button's wire number and the encoded action
    /// string the renderer will echo back.
    Action(nat, Seq<char>),
}

/// `%{<letter><value>}`, the lemonbar attribute syntax.
pub open spec fn lemon_wrap(letter: char, v: Seq<char>) -> Seq<char> {
    seq!['%', '{', letter] + v + seq!['}']
}

/// `%{<letter>:<value>}`, the zelbar attribute syntax.
pub open spec fn zelbar_wrap(letter: char, v: Seq<char>) -> Seq<char> {
    seq!['%', '{', letter, ':'] + v + seq!['}']
}

/// The text that opens a mark.
pub open spec fn mark_open(prog: Program, m: Mark) -> Seq<char> {
    match prog {
        Program::Lemonbar => match m {
            Mark::Offset(o) => lemon_wrap('O', o),
            Mark::Bg(c) => lemon_wrap('B', lemonbar_code(c)),
            Mark::Fg(c) => lemon_wrap('F', lemonbar_code(c)),
            Mark::Underline(c) => lemon_wrap('U', lemonbar_code(c)) + seq!['%', '{', '+', 'u', '}'],
            Mark::Font(f) => lemon_wrap('T', f),
            Mark::Action(n, e) => seq!['%', '{', 'A'] + spec_dec(n) + seq![':'] + e + seq![
                ':',
                '}',
            ],
        },
        Program::Zelbar => match m {
            Mark::Offset(o) => zelbar_wrap('X', o),
            Mark::Bg(c) => zelbar_wrap('B', zelbar_code(c)),
            Mark::Fg(c) => zelbar_wrap('F', zelbar_code(c)),
            Mark::Underline(c) => zelbar_wrap('U', zelbar_code(c)),
            Mark::Font(f) => zelbar_wrap('T', f),
            Mark::Action(n, e) => seq!['%', '{', 'A'] + spec_dec(n) + seq![':'] + e + seq!['}'],
        },
    }
}

/// The text that closes a mark: a bare reset in the lemonbar dialect,
/// nothing in the zelbar dialect, whose attributes are self-terminating.
pub open spec fn mark_close(prog: Program, m: Mark) -> Seq<char> {
    match prog {
        Program::Lemonbar => match m {
            Mark::Offset(_) => lemon_wrap('O', seq!['0']),
            Mark::Bg(_) => lemon_wrap('B', seq!['-']),
            Mark::Fg(_) => lemon_wrap('F', seq!['-']),
            Mark::Underline(_) => lemon_wrap('U', seq!['-']) + seq!['%', '{', '-', 'u', '}'],
            Mark::Font(_) => lemon_wrap('T', seq!['-']),
            Mark::Action(_, _) => seq!['%', '{', 'A', '}'],
        },
        Program::Zelbar => Seq::empty(),
    }
}

/// The opening text of a list of marks, in order.
pub open spec fn opens(prog: Program, ms: Seq<Mark>) -> Seq<char>
    decreases ms.len(),
{
    if ms.len() == 0 {
        Seq::empty()
    } else {
        mark_open(prog, ms[0]) + opens(prog, ms.skip(1))
    }
}

/// The closing text of a list of marks: the last-opened mark closes
/// first.
pub open spec fn closes(prog: Program, ms: Seq<Mark>) -> Seq<char>
    decreases ms.len(),
{
    if ms.len() == 0 {
        Seq::empty()
    } else {
        closes(prog, ms.skip(1)) + mark_close(prog, ms[0])
    }
}

/// The closing text read in front-to-back order, for stating the
/// stacking law.
pub open spec fn closes_in_order(prog: Program, ms: Seq<Mark>) -> Seq<char>
    decreases ms.len(),
{
    if ms.len() == 0 {
        Seq::empty()
    } else {
        mark_close(prog, ms[0]) + closes_in_order(prog, ms.skip(1))
    }
}

pub proof fn lemma_opens_concat(prog: Program, a: Seq<Mark>, b: Seq<Mark>)
    ensures
        opens(prog, a + b) =~= opens(prog, a) + opens(prog, b),
    decreases a.len(),
{
    if a.len() == 0 {
        assert(a + b =~= b);
    } else {
        lemma_opens_concat(prog, a.skip(1), b);
        assert((a + b).skip(1) =~= a.skip(1) + b);
        assert((a + b)[0] == a[0]);
    }
}

pub proof fn lemma_closes_concat(prog: Program, a: Seq<Mark>, b: Seq<Mark>)
    ensures
        closes(prog, a + b) =~= closes(prog, b) + closes(prog, a),
    decreases a.len(),
{
    if a.len() == 0 {
        assert(a + b =~= b);
    } else {
        lemma_closes_concat(prog, a.skip(1), b);
        assert((a + b).skip(1) =~= a.skip(1) + b);
        assert((a + b)[0] == a[0]);
    }
}

/// The mark opened last is closed first: appending a mark to the open
/// list puts its close in front of all the others.
pub proof fn lemma_closes_snoc(prog: Program, ms: Seq<Mark>, m: Mark)
    ensures
        closes(prog, ms.push(m)) =~= mark_close(prog, m) + closes(prog, ms),
    decreases ms.len(),
{
    if ms.len() == 0 {
        assert(ms.push(m).skip(1) =~= Seq::<Mark>::empty());
        assert(ms.push(m)[0] == m);
        assert(closes(prog, Seq::<Mark>::empty()) =~= Seq::<char>::empty());
        assert(closes(prog, ms.push(m)) =~= mark_close(prog, m) + closes(prog, ms));
    } else {
        lemma_closes_snoc(prog, ms.skip(1), m);
        assert(ms.push(m).skip(1) =~= ms.skip(1).push(m));
        assert(ms.push(m)[0] == ms[0]);
        assert(closes(prog, ms.push(m)) =~= closes(prog, ms.skip(1).push(m)) + mark_close(
            prog,
            ms[0],
        ));
        assert(closes(prog, ms.push(m)) =~= mark_close(prog, m) + closes(prog, ms));
    }
}

/// Markup stacking: the closes of a run are exactly the closes of its
/// marks taken in reverse order of opening — what was opened last is
/// closed first, and nothing else is ever closed.
pub proof fn lemma_markup_stacking(prog: Program, ms: Seq<Mark>)
    ensures
        closes(prog, ms) =~= closes_in_order(prog, ms.reverse()),
    decreases ms.len(),
{
    if ms.len() == 0 {
        assert(ms.reverse() =~= Seq::<Mark>::empty());
    } else {
        lemma_markup_stacking(prog, ms.drop_last());
        lemma_closes_snoc(prog, ms.drop_last(), ms.last());
        assert(ms.drop_last().push(ms.last()) =~= ms);
        assert(ms.reverse()[0] == ms.last());
        assert(ms.reverse().skip(1) =~= ms.drop_last().reverse());
    }
}

/// In the zelbar dialect every attribute is self-terminating: nothing is
/// ever written to close a mark.
pub proof fn lemma_zelbar_no_closes(ms: Seq<Mark>)
    ensures
        closes(Program::Zelbar, ms) =~= Seq::<char>::empty(),
    decreases ms.len(),
{
    if ms.len() > 0 {
        lemma_zelbar_no_closes(ms.skip(1));
    }
}

// ---------------------------------------------------------------------------
// which marks a run opens
// ---------------------------------------------------------------------------

/// A run's color wins over the block's where both are set.
pub open spec fn or_color(a: Option<Color>, b: Option<Color>) -> Option<Color> {
    if a is Some {
        a
    } else {
        b
    }
}

/// The decorations a run is drawn with: its own, falling back to the
/// block's.
pub open spec fn spec_effective(run: TextDecorations, blk: TextDecorations) -> TextDecorations {
    TextDecorations {
        bg: or_color(run.bg, blk.bg),
        fg: or_color(run.fg, blk.fg),
        underline: or_color(run.underline, blk.underline),
    }
}

/// The decorations a run is drawn with.
pub fn effective(run: &TextDecorations, blk: &TextDecorations) -> (r: TextDecorations)
    ensures
        r == spec_effective(*run, *blk),
{
    TextDecorations {
        bg: match run.bg {
            Option::Some(c) => Some(c),
            Option::None => blk.bg,
        },
        fg: match run.fg {
            Option::Some(c) => Some(c),
            Option::None => blk.fg,
        },
        underline: match run.underline {
            Option::Some(c) => Some(c),
            Option::None => blk.underline,
        },
    }
}

/// The button with wire number `n`.
pub open spec fn spec_button(n: nat) -> MouseButton {
    if n == 1 {
        MouseButton::Left
    } else if n == 2 {
        MouseButton::Middle
    } else if n == 3 {
        MouseButton::Right
    } else if n == 4 {
        MouseButton::ScrollUp
    } else {
        MouseButton::ScrollDown
    }
}

/// The action marks of the buttons numbered `n` and above that have a
/// configured command, in button order.
pub open spec fn spec_action_marks(
    actions: Actions,
    alignment: Alignment,
    index: usize,
    monitor: u8,
    n: nat,
) -> Seq<Mark>
    decreases 6 - n,
{
    if n < 1 || n > 5 {
        Seq::empty()
    } else {
        (if actions.entries[n - 1] is Some {
            seq![
                Mark::Action(
                    n,
                    spec_encode(
                        Action { id: (alignment, index), monitor, button: spec_button(n) },
                    ),
                ),
            ]
        } else {
            Seq::empty()
        }) + spec_action_marks(actions, alignment, index, monitor, (n + 1) as nat)
    }
}

/// The offset mark, if an offset is set.
pub open spec fn seg_offset(o: Option<crate::block::Offset>) -> Seq<Mark> {
    match o {
        Option::Some(o) => seq![Mark::Offset(o.0@)],
        Option::None => Seq::empty(),
    }
}

/// The background mark, if a background is set.
pub open spec fn seg_bg(c: Option<Color>) -> Seq<Mark> {
    match c {
        Option::Some(c) => seq![Mark::Bg(c)],
        Option::None => Seq::empty(),
    }
}

/// The foreground mark, if a foreground is set.
pub open spec fn seg_fg(c: Option<Color>) -> Seq<Mark> {
    match c {
        Option::Some(c) => seq![Mark::Fg(c)],
        Option::None => Seq::empty(),
    }
}

/// The underline mark, if an underline is set.
pub open spec fn seg_underline(c: Option<Color>) -> Seq<Mark> {
    match c {
        Option::Some(c) => seq![Mark::Underline(c)],
        Option::None => Seq::empty(),
    }
}

/// The font mark, if a font is set.
pub open spec fn seg_font(f: Option<crate::block::Font>) -> Seq<Mark> {
    match f {
        Option::Some(f) => seq![Mark::Font(f.0@)],
        Option::None => Seq::empty(),
    }
}

/// Everything a run opens, in opening order: offset, background,
/// foreground, underline, font, then one action per configured button.
pub open spec fn spec_marks(b: Block, eff: TextDecorations, index: usize, monitor: u8) -> Seq<
    Mark,
> {
    seg_offset(b.offset) + seg_bg(eff.bg) + seg_fg(eff.fg) + seg_underline(eff.underline)
        + seg_font(b.font) + spec_action_marks(b.available_actions, b.alignment, index, monitor, 1)
}

// ---------------------------------------------------------------------------
// the body of a run
// ---------------------------------------------------------------------------

/// Percent-escaping: every `%` becomes `%%`.
pub open spec fn lemon_escape_plain(s: Seq<char>) -> Seq<char>
    decreases s.len(),
{
    if s.len() == 0 {
        Seq::empty()
    } else {
        lemon_escape_plain(s.drop_last()) + (if s.last() == '%' {
            seq!['%', '%']
        } else {
            seq![s.last()]
        })
    }
}

/// A run body in the lemonbar dialect: raw text is passed through, with
/// one `%` appended if it ends in `%`; cooked text is percent-escaped.
pub open spec fn lemon_body(s: Seq<char>, raw: bool) -> Seq<char> {
    if raw {
        if s.len() > 0 && s.last() == '%' {
            s + seq!['%']
        } else {
            s
        }
    } else {
        lemon_escape_plain(s)
    }
}

/// Whether `s` starts with a lemonbar color attribute `%{<BFU>#rrggbb}`.
pub open spec fn compat_color_at(s: Seq<char>) -> bool {
    s.len() >= 11 && s[0] == '%' && s[1] == '{' && (s[2] == 'B' || s[2] == 'F' || s[2] == 'U')
        && s[3] == '#' && crate::color::is_hex_digit(s[4]) && crate::color::is_hex_digit(s[5])
        && crate::color::is_hex_digit(s[6]) && crate::color::is_hex_digit(s[7])
        && crate::color::is_hex_digit(s[8]) && crate::color::is_hex_digit(s[9]) && s[10] == '}'
}

/// Whether `s` starts with an underline toggle `%{+u}` or `%{-u}`.
pub open spec fn compat_toggle_at(s: Seq<char>) -> bool {
    s.len() >= 5 && s[0] == '%' && s[1] == '{' && (s[2] == '+' || s[2] == '-') && s[3] == 'u'
        && s[4] == '}'
}

/// Whether `s` starts with a lemonbar attribute reset `%{<BFU>-}`.
pub open spec fn compat_reset_at(s: Seq<char>) -> bool {
    s.len() >= 5 && s[0] == '%' && s[1] == '{' && (s[2] == 'B' || s[2] == 'F' || s[2] == 'U')
        && s[3] == '-' && s[4] == '}'
}

/// Raw lemonbar-style markup rewritten for zelbar: color attributes get
/// zelbar's syntax, underline toggles and attribute resets are dropped,
/// everything else passes through.
pub open spec fn zelbar_compat(s: Seq<char>) -> Seq<char>
    decreases s.len(),
{
    if s.len() == 0 {
        Seq::empty()
    } else if compat_color_at(s) {
        seq!['%', '{', s[2], ':', '0', 'x', s[4], s[5], s[6], s[7], s[8], s[9], '}']
            + zelbar_compat(s.skip(11))
    } else if compat_toggle_at(s) || compat_reset_at(s) {
        zelbar_compat(s.skip(5))
    } else {
        seq![s[0]] + zelbar_compat(s.skip(1))
    }
}

/// A run body in the zelbar dialect: raw text is rewritten for
/// compatibility, cooked text is passed through.
pub open spec fn zelbar_body(s: Seq<char>, raw: bool) -> Seq<char> {
    if raw {
        zelbar_compat(s)
    } else {
        s
    }
}

/// The body of a run for `prog`.
pub open spec fn spec_body(prog: Program, s: Seq<char>, raw: bool) -> Seq<char> {
    match prog {
        Program::Lemonbar => lemon_body(s, raw),
        Program::Zelbar => zelbar_body(s, raw),
    }
}

/// One run, fully rendered: its marks opened in order, its body, then
/// every mark closed, innermost first.
pub open spec fn spec_render_run(
    prog: Program,
    b: Block,
    run: BlockText,
    index: usize,
    monitor: u8,
) -> Seq<char> {
    let ms = spec_marks(b, spec_effective(run.decorations, b.decorations), index, monitor);
    opens(prog, ms) + spec_body(prog, run.text@, b.raw) + closes(prog, ms)
}

// ---------------------------------------------------------------------------
// writers
// ---------------------------------------------------------------------------

pub proof fn lemma_opens_singleton(prog: Program, m: Mark)
    ensures
        opens(prog, seq![m]) =~= mark_open(prog, m),
{
    assert(seq![m].skip(1) =~= Seq::<Mark>::empty());
    assert(seq![m][0] == m);
    assert(opens(prog, Seq::<Mark>::empty()) =~= Seq::<char>::empty());
}

pub proof fn lemma_closes_singleton(prog: Program, m: Mark)
    ensures
        closes(prog, seq![m]) =~= mark_close(prog, m),
{
    assert(seq![m].skip(1) =~= Seq::<Mark>::empty());
    assert(seq![m][0] == m);
    assert(closes(prog, Seq::<Mark>::empty()) =~= Seq::<char>::empty());
}

fn write_lemon_attr(out: &mut String, letter: char, value: &str)
    ensures
        final(out)@ == old(out)@ + lemon_wrap(letter, value@),
{
    let ghost base = out@;
    push_char(out, '%');
    push_char(out, '{');
    push_char(out, letter);
    append_str(out, value);
    push_char(out, '}');
    assert(out@ =~= base + lemon_wrap(letter, value@));
}

fn write_zelbar_attr(out: &mut String, letter: char, value: &str)
    ensures
        final(out)@ == old(out)@ + zelbar_wrap(letter, value@),
{
    let ghost base = out@;
    push_char(out, '%');
    push_char(out, '{');
    push_char(out, letter);
    push_char(out, ':');
    append_str(out, value);
    push_char(out, '}');
    assert(out@ =~= base + zelbar_wrap(letter, value@));
}

fn write_action_open(out: &mut String, prog: Program, n: u8, encoded: &str)
    requires
        1 <= n <= 5,
    ensures
        final(out)@ == old(out)@ + mark_open(prog, Mark::Action(n as nat, encoded@)),
{
    let ghost base = out@;
    push_char(out, '%');
    push_char(out, '{');
    push_char(out, 'A');
    let num = u64_to_dec(n as u64);
    append_str(out, num.as_str());
    push_char(out, ':');
    append_str(out, encoded);
    match prog {
        Program::Lemonbar => {
            push_char(out, ':');
            push_char(out, '}');
            assert(out@ =~= base + mark_open(prog, Mark::Action(n as nat, encoded@)));
        },
        Program::Zelbar => {
            push_char(out, '}');
            assert(out@ =~= base + mark_open(prog, Mark::Action(n as nat, encoded@)));
        },
    }
}

/// Opens the offset mark, if any.
fn write_offset_open(out: &mut String, prog: Program, o: &Option<crate::block::Offset>)
    ensures
        final(out)@ == old(out)@ + opens(prog, seg_offset(*o)),
{
    let ghost base = out@;
    match o {
        Option::Some(o) => {
            match prog {
                Program::Lemonbar => write_lemon_attr(out, 'O', o.0.as_str()),
                Program::Zelbar => write_zelbar_attr(out, 'X', o.0.as_str()),
            }
            proof {
                lemma_opens_singleton(prog, Mark::Offset(o.0@));
            }
        },
        Option::None => {},
    }
    assert(out@ =~= base + opens(prog, seg_offset(*o)));
}

/// Opens one color mark, if the color is set; `which` distinguishes
/// background, foreground and underline.
fn write_color_open(out: &mut String, prog: Program, c: &Option<Color>, which: u8)
    requires
        which < 3,
    ensures
        which == 0 ==> final(out)@ == old(out)@ + opens(prog, seg_bg(*c)),
        which == 1 ==> final(out)@ == old(out)@ + opens(prog, seg_fg(*c)),
        which == 2 ==> final(out)@ == old(out)@ + opens(prog, seg_underline(*c)),
{
    let ghost base = out@;
    match c {
        Option::Some(c) => {
            let letter: char = if which == 0 {
                'B'
            } else if which == 1 {
                'F'
            } else {
                'U'
            };
            match prog {
                Program::Lemonbar => {
                    let code = c.to_code();
                    write_lemon_attr(out, letter, code.as_str());
                    if which == 2 {
                        push_char(out, '%');
                        push_char(out, '{');
                        push_char(out, '+');
                        push_char(out, 'u');
                        push_char(out, '}');
                    }
                },
                Program::Zelbar => {
                    let code = c.to_hex();
                    write_zelbar_attr(out, letter, code.as_str());
                },
            }
            proof {
                if which == 0 {
                    lemma_opens_singleton(prog, Mark::Bg(*c));
                } else if which == 1 {
                    lemma_opens_singleton(prog, Mark::Fg(*c));
                } else {
                    lemma_opens_singleton(prog, Mark::Underline(*c));
                }
            }
        },
        Option::None => {},
    }
}

/// Opens the font mark, if any.
fn write_font_open(out: &mut String, prog: Program, f: &Option<crate::block::Font>)
    ensures
        final(out)@ == old(out)@ + opens(prog, seg_font(*f)),
{
    let ghost base = out@;
    match f {
        Option::Some(f) => {
            match prog {
                Program::Lemonbar => write_lemon_attr(out, 'T', f.0.as_str()),
                Program::Zelbar => write_zelbar_attr(out, 'T', f.0.as_str()),
            }
            proof {
                lemma_opens_singleton(prog, Mark::Font(f.0@));
            }
        },
        Option::None => {},
    }
    assert(out@ =~= base + opens(prog, seg_font(*f)));
}

/// Opens one action mark per configured button, in button order.
fn write_action_opens(
    out: &mut String,
    prog: Program,
    actions: &Actions,
    alignment: Alignment,
    index: usize,
    monitor: u8,
)
    requires
        actions.wf(),
    ensures
        final(out)@ == old(out)@ + opens(
            prog,
            spec_action_marks(*actions, alignment, index, monitor, 1),
        ),
{
    let ghost base = out@;
    let ghost mut emitted: Seq<char> = Seq::empty();
    let mut n: u8 = 1;
    while n <= 5
        invariant
            1 <= n <= 6,
            actions.wf(),
            out@ == base + emitted,
            opens(prog, spec_action_marks(*actions, alignment, index, monitor, 1)) =~= emitted
                + opens(prog, spec_action_marks(*actions, alignment, index, monitor, n as nat)),
        decreases 6 - n,
    {
        let ghost am_n = spec_action_marks(*actions, alignment, index, monitor, n as nat);
        let ghost am_next = spec_action_marks(*actions, alignment, index, monitor, (n + 1) as nat);
        if actions.entries[(n - 1) as usize].is_some() {
            let act = Action::new(alignment, index, monitor, MouseButton::from_number(n));
            let encoded = act.encode();
            write_action_open(out, prog, n, encoded.as_str());
            proof {
                assert(act.button == spec_button(n as nat));
                let m = Mark::Action(n as nat, encoded@);
                assert(am_n =~= seq![m] + am_next);
                lemma_opens_concat(prog, seq![m], am_next);
                lemma_opens_singleton(prog, m);
                emitted = emitted + mark_open(prog, m);
            }
        } else {
            proof {
                assert(am_n =~= Seq::<Mark>::empty() + am_next);
                lemma_opens_concat(prog, Seq::<Mark>::empty(), am_next);
            }
        }
        n += 1;
    }
    proof {
        assert(opens(prog, spec_action_marks(*actions, alignment, index, monitor, 6))
            =~= Seq::<char>::empty());
        assert(out@ =~= base + opens(
            prog,
            spec_action_marks(*actions, alignment, index, monitor, 1),
        ));
    }
}

/// Opens every mark of the run, in order.
fn write_opens(out: &mut String, prog: Program, b: &Block, eff: TextDecorations, index: usize, monitor: u8)
    requires
        b.wf(),
    ensures
        final(out)@ == old(out)@ + opens(prog, spec_marks(*b, eff, index, monitor)),
{
    let ghost ms = spec_marks(*b, eff, index, monitor);
    let ghost s_off = seg_offset(b.offset);
    let ghost s_bg = seg_bg(eff.bg);
    let ghost s_fg = seg_fg(eff.fg);
    let ghost s_un = seg_underline(eff.underline);
    let ghost s_font = seg_font(b.font);
    let ghost s_act = spec_action_marks(b.available_actions, b.alignment, index, monitor, 1);
    proof {
        lemma_opens_concat(prog, s_off + s_bg + s_fg + s_un + s_font, s_act);
        lemma_opens_concat(prog, s_off + s_bg + s_fg + s_un, s_font);
        lemma_opens_concat(prog, s_off + s_bg + s_fg, s_un);
        lemma_opens_concat(prog, s_off + s_bg, s_fg);
        lemma_opens_concat(prog, s_off, s_bg);
    }
    let ghost base = out@;
    write_offset_open(out, prog, &b.offset);
    write_color_open(out, prog, &eff.bg, 0);
    write_color_open(out, prog, &eff.fg, 1);
    write_color_open(out, prog, &eff.underline, 2);
    write_font_open(out, prog, &b.font);
    write_action_opens(out, prog, &b.available_actions, b.alignment, index, monitor);
    assert(out@ =~= base + opens(prog, ms));
}

/// The closes of the action marks numbered `n` and above, innermost
/// (highest button number) first.
pub open spec fn spec_action_closes(prog: Program, actions: Actions, n: nat) -> Seq<char>
    decreases 6 - n,
{
    if n < 1 || n > 5 {
        Seq::empty()
    } else {
        spec_action_closes(prog, actions, (n + 1) as nat) + (if actions.entries[n - 1] is Some {
            mark_close(prog, Mark::Action(n, Seq::empty()))
        } else {
            Seq::empty()
        })
    }
}

pub proof fn lemma_closes_action_marks(
    prog: Program,
    actions: Actions,
    alignment: Alignment,
    index: usize,
    monitor: u8,
    n: nat,
)
    requires
        1 <= n <= 6,
    ensures
        closes(prog, spec_action_marks(actions, alignment, index, monitor, n))
            =~= spec_action_closes(prog, actions, n),
    decreases 6 - n,
{
    if n == 6 {
    } else {
        lemma_closes_action_marks(prog, actions, alignment, index, monitor, n + 1);
        let am_n = spec_action_marks(actions, alignment, index, monitor, n);
        let am_next = spec_action_marks(actions, alignment, index, monitor, (n + 1) as nat);
        if actions.entries[n - 1] is Some {
            let m = Mark::Action(
                n,
                spec_encode(Action { id: (alignment, index), monitor, button: spec_button(n) }),
            );
            assert(am_n =~= seq![m] + am_next);
            lemma_closes_concat(prog, seq![m], am_next);
            lemma_closes_singleton(prog, m);
            assert(mark_close(prog, m) == mark_close(prog, Mark::Action(n, Seq::empty())));
        } else {
            assert(am_n =~= Seq::<Mark>::empty() + am_next);
            lemma_closes_concat(prog, Seq::<Mark>::empty(), am_next);
        }
    }
}

/// Closes every mark of the run, innermost first. In the zelbar dialect
/// nothing is written.
#[verifier::rlimit(60)]
fn write_closes(out: &mut String, prog: Program, b: &Block, eff: TextDecorations, index: usize, monitor: u8)
    requires
        b.wf(),
    ensures
        final(out)@ == old(out)@ + closes(prog, spec_marks(*b, eff, index, monitor)),
{
    let ghost ms = spec_marks(*b, eff, index, monitor);
    match prog {
        Program::Zelbar => {
            proof {
                lemma_zelbar_no_closes(ms);
                assert(out@ =~= out@ + closes(prog, ms));
            }
            return ;
        },
        Program::Lemonbar => {},
    }
    let ghost s_off = seg_offset(b.offset);
    let ghost s_bg = seg_bg(eff.bg);
    let ghost s_fg = seg_fg(eff.fg);
    let ghost s_un = seg_underline(eff.underline);
    let ghost s_font = seg_font(b.font);
    let ghost s_act = spec_action_marks(b.available_actions, b.alignment, index, monitor, 1);
    proof {
        lemma_closes_concat(prog, s_off + s_bg + s_fg + s_un + s_font, s_act);
        lemma_closes_concat(prog, s_off + s_bg + s_fg + s_un, s_font);
        lemma_closes_concat(prog, s_off + s_bg + s_fg, s_un);
        lemma_closes_concat(prog, s_off + s_bg, s_fg);
        lemma_closes_concat(prog, s_off, s_bg);
    }
    let ghost base = out@;
    write_action_closes(out, prog, &b.available_actions, b.alignment, index, monitor);
    assert(out@ =~= base + closes(prog, s_act));
    write_font_close(out, prog, &b.font);
    assert(out@ =~= base + (closes(prog, s_act) + closes(prog, s_font)));
    write_underline_close(out, prog, &eff.underline);
    assert(out@ =~= base + (closes(prog, s_act) + closes(prog, s_font) + closes(prog, s_un)));
    write_color_close(out, prog, &eff.fg, 1);
    assert(out@ =~= base + (closes(prog, s_act) + closes(prog, s_font) + closes(prog, s_un)
        + closes(prog, s_fg)));
    write_color_close(out, prog, &eff.bg, 0);
    assert(out@ =~= base + (closes(prog, s_act) + closes(prog, s_font) + closes(prog, s_un)
        + closes(prog, s_fg) + closes(prog, s_bg)));
    write_offset_close(out, prog, &b.offset);
    assert(out@ =~= base + (closes(prog, s_act) + closes(prog, s_font) + closes(prog, s_un)
        + closes(prog, s_fg) + closes(prog, s_bg) + closes(prog, s_off)));
    assert(closes(prog, ms) =~= closes(prog, s_act) + closes(prog, s_font) + closes(prog, s_un)
        + closes(prog, s_fg) + closes(prog, s_bg) + closes(prog, s_off));
    assert(out@ =~= base + closes(prog, ms));
}

/// Closes the configured actions, highest button number first.
fn write_action_closes(
    out: &mut String,
    prog: Program,
    actions: &Actions,
    alignment: Alignment,
    index: usize,
    monitor: u8,
)
    requires
        actions.wf(),
        prog is Lemonbar,
    ensures
        final(out)@ == old(out)@ + closes(
            prog,
            spec_action_marks(*actions, alignment, index, monitor, 1),
        ),
{
    proof {
        lemma_closes_action_marks(prog, *actions, alignment, index, monitor, 1);
    }
    let ghost base = out@;
    let ghost mut emitted: Seq<char> = Seq::empty();
    let mut n: u8 = 5;
    while n >= 1
        invariant
            0 <= n <= 5,
            actions.wf(),
            prog is Lemonbar,
            out@ == base + emitted,
            emitted =~= spec_action_closes(prog, *actions, (n + 1) as nat),
        decreases n,
    {
        if actions.entries[(n - 1) as usize].is_some() {
            push_char(out, '%');
            push_char(out, '{');
            push_char(out, 'A');
            push_char(out, '}');
            proof {
                emitted = emitted + mark_close(prog, Mark::Action(n as nat, Seq::empty()));
                assert(emitted =~= spec_action_closes(prog, *actions, n as nat));
            }
        } else {
            proof {
                assert(emitted =~= spec_action_closes(prog, *actions, n as nat));
            }
        }
        n -= 1;
    }
    assert(out@ =~= base + closes(prog, spec_action_marks(*actions, alignment, index, monitor, 1)));
}

/// Closes the font mark, if any.
fn write_font_close(out: &mut String, prog: Program, f: &Option<crate::block::Font>)
    requires
        prog is Lemonbar,
    ensures
        final(out)@ == old(out)@ + closes(prog, seg_font(*f)),
{
    let ghost base = out@;
    match f {
        Option::Some(f) => {
            write_lemon_attr(out, 'T', "-");
            proof {
                reveal_strlit("-");
                assert("-"@ =~= seq!['-']);
                lemma_closes_singleton(prog, Mark::Font(f.0@));
            }
        },
        Option::None => {},
    }
    assert(out@ =~= base + closes(prog, seg_font(*f)));
}

/// Closes the underline mark, if any.
fn write_underline_close(out: &mut String, prog: Program, c: &Option<Color>)
    requires
        prog is Lemonbar,
    ensures
        final(out)@ == old(out)@ + closes(prog, seg_underline(*c)),
{
    let ghost base = out@;
    match c {
        Option::Some(c) => {
            write_lemon_attr(out, 'U', "-");
            push_char(out, '%');
            push_char(out, '{');
            push_char(out, '-');
            push_char(out, 'u');
            push_char(out, '}');
            proof {
                reveal_strlit("-");
                assert("-"@ =~= seq!['-']);
                lemma_closes_singleton(prog, Mark::Underline(*c));
            }
        },
        Option::None => {},
    }
    assert(out@ =~= base + closes(prog, seg_underline(*c)));
}

/// Closes the foreground or background mark, if set.
fn write_color_close(out: &mut String, prog: Program, c: &Option<Color>, which: u8)
    requires
        prog is Lemonbar,
        which < 2,
    ensures
        which == 0 ==> final(out)@ == old(out)@ + closes(prog, seg_bg(*c)),
        which == 1 ==> final(out)@ == old(out)@ + closes(prog, seg_fg(*c)),
{
    let ghost base = out@;
    match c {
        Option::Some(c) => {
            let letter: char = if which == 0 {
                'B'
            } else {
                'F'
            };
            write_lemon_attr(out, letter, "-");
            proof {
                reveal_strlit("-");
                assert("-"@ =~= seq!['-']);
                if which == 0 {
                    lemma_closes_singleton(prog, Mark::Bg(*c));
                } else {
                    lemma_closes_singleton(prog, Mark::Fg(*c));
                }
            }
        },
        Option::None => {},
    }
}

/// Closes the offset mark, if any.
fn write_offset_close(out: &mut String, prog: Program, o: &Option<crate::block::Offset>)
    requires
        prog is Lemonbar,
    ensures
        final(out)@ == old(out)@ + closes(prog, seg_offset(*o)),
{
    let ghost base = out@;
    match o {
        Option::Some(o) => {
            write_lemon_attr(out, 'O', "0");
            proof {
                reveal_strlit("0");
                assert("0"@ =~= seq!['0']);
                lemma_closes_singleton(prog, Mark::Offset(o.0@));
            }
        },
        Option::None => {},
    }
    assert(out@ =~= base + closes(prog, seg_offset(*o)));
}

// ---------------------------------------------------------------------------
// body writers
// ---------------------------------------------------------------------------

/// Writes a run body in the lemonbar dialect.
fn write_lemon_body(out: &mut String, text: &str, raw: bool)
    ensures
        final(out)@ == old(out)@ + lemon_body(text@, raw),
{
    let ghost base = out@;
    if raw {
        append_str(out, text);
        let n = text.unicode_len();
        if n > 0 {
            let last = text.get_char(n - 1);
            if last == '%' {
                push_char(out, '%');
            }
        }
        assert(out@ =~= base + lemon_body(text@, raw));
    } else {
        let n = text.unicode_len();
        let mut i: usize = 0;
        while i < n
            invariant
                i <= n,
                n == text@.len(),
                out@ == base + lemon_escape_plain(text@.take(i as int)),
            decreases n - i,
        {
            let c = text.get_char(i);
            if c == '%' {
                push_char(out, '%');
                push_char(out, '%');
            } else {
                push_char(out, c);
            }
            proof {
                assert(text@.take(i + 1).drop_last() =~= text@.take(i as int));
                assert(text@.take(i + 1).last() == text@[i as int]);
            }
            i += 1;
        }
        assert(text@.take(n as int) =~= text@);
    }
}

/// Writes a run body in the zelbar dialect: raw lemonbar-style markup is
/// rewritten for zelbar, cooked text passes through.
fn write_zelbar_body(out: &mut String, text: &str, raw: bool)
    ensures
        final(out)@ == old(out)@ + zelbar_body(text@, raw),
{
    let ghost base = out@;
    if !raw {
        append_str(out, text);
        return ;
    }
    let chars = crate::text::str_to_chars(text);
    let ghost sv = text@;
    let n = chars.len();
    proof {
        assert(out@.skip(base.len() as int) =~= Seq::<char>::empty());
        assert(sv.skip(0) =~= sv);
        assert(out@.take(base.len() as int) =~= base);
    }
    let mut i: usize = 0;
    while i < n
        invariant
            i <= n,
            n == sv.len(),
            chars@ == sv,
            zelbar_compat(sv) =~= out@.skip(base.len() as int) + zelbar_compat(sv.skip(i as int)),
            out@.len() >= base.len(),
            out@.take(base.len() as int) == base,
        decreases n - i,
    {
        let ghost rest = sv.skip(i as int);
        let ghost pre_out = out@;
        let mut color_match = false;
        if n - i >= 11 {
            if chars[i] == '%' && chars[i + 1] == '{' && (chars[i + 2] == 'B' || chars[i + 2] == 'F'
                || chars[i + 2] == 'U') && chars[i + 3] == '#' && chars[i + 10] == '}' {
                let mut all_hex = true;
                let mut k: usize = 4;
                while k < 10
                    invariant
                        4 <= k <= 10,
                        i + 11 <= n,
                        n == sv.len(),
                        chars@ == sv,
                        all_hex == (forall|j: int|
                            4 <= j < k ==> crate::color::is_hex_digit(#[trigger] sv[i + j])),
                    decreases 10 - k,
                {
                    if crate::color::hex_digit_value(chars[i + k]).is_none() {
                        all_hex = false;
                    }
                    k += 1;
                }
                color_match = all_hex;
            }
        }
        proof {
            assert(forall|j: int| 0 <= j < rest.len() ==> rest[j] == sv[i + j]);
        }
        if color_match {
            assert(compat_color_at(rest));
            push_char(out, '%');
            push_char(out, '{');
            push_char(out, chars[i + 2]);
            push_char(out, ':');
            push_char(out, '0');
            push_char(out, 'x');
            push_char(out, chars[i + 4]);
            push_char(out, chars[i + 5]);
            push_char(out, chars[i + 6]);
            push_char(out, chars[i + 7]);
            push_char(out, chars[i + 8]);
            push_char(out, chars[i + 9]);
            push_char(out, '}');
            proof {
                assert(rest.skip(11) =~= sv.skip(i + 11));
                assert(out@ =~= pre_out + seq![
                    '%', '{', sv[i + 2], ':', '0', 'x', sv[i + 4], sv[i + 5], sv[i + 6],
                    sv[i + 7], sv[i + 8], sv[i + 9], '}',
                ]);
                assert(zelbar_compat(rest) =~= seq![
                    '%', '{', sv[i + 2], ':', '0', 'x', sv[i + 4], sv[i + 5], sv[i + 6],
                    sv[i + 7], sv[i + 8], sv[i + 9], '}',
                ] + zelbar_compat(sv.skip(i + 11)));
                assert(out@.skip(base.len() as int) =~= pre_out.skip(base.len() as int) + seq![
                    '%', '{', sv[i + 2], ':', '0', 'x', sv[i + 4], sv[i + 5], sv[i + 6],
                    sv[i + 7], sv[i + 8], sv[i + 9], '}',
                ]);
                assert(zelbar_compat(sv) =~= out@.skip(base.len() as int) + zelbar_compat(
                    sv.skip(i + 11),
                ));
                assert(out@.take(base.len() as int) =~= base);
            }
            i += 11;
        } else {
            let mut skip5 = false;
            if n - i >= 5 {
                if chars[i] == '%' && chars[i + 1] == '{' && chars[i + 3] == 'u' && chars[i + 4]
                    == '}' && (chars[i + 2] == '+' || chars[i + 2] == '-') {
                    skip5 = true;
                    assert(compat_toggle_at(rest));
                } else if chars[i] == '%' && chars[i + 1] == '{' && chars[i + 3] == '-' && chars[i
                    + 4] == '}' && (chars[i + 2] == 'B' || chars[i + 2] == 'F' || chars[i + 2]
                    == 'U') {
                    skip5 = true;
                    assert(compat_reset_at(rest));
                }
            }
            if skip5 {
                proof {
                    assert(!compat_color_at(rest));
                    assert(rest.skip(5) =~= sv.skip(i + 5));
                    assert(zelbar_compat(sv) =~= out@.skip(base.len() as int) + zelbar_compat(
                        sv.skip(i + 5),
                    ));
                }
                i += 5;
            } else {
                proof {
                    assert(!compat_color_at(rest));
                    assert(!compat_toggle_at(rest));
                    assert(!compat_reset_at(rest));
                    assert(rest.len() > 0 && rest[0] == sv[i as int]);
                }
                push_char(out, chars[i]);
                proof {
                    assert(rest.skip(1) =~= sv.skip(i + 1));
                    assert(out@.skip(base.len() as int) =~= pre_out.skip(base.len() as int)
                        + seq![sv[i as int]]);
                    assert(zelbar_compat(sv) =~= out@.skip(base.len() as int) + zelbar_compat(
                        sv.skip(i + 1),
                    ));
                    assert(out@.take(base.len() as int) =~= base);
                }
                i += 1;
            }
        }
    }
    proof {
        assert(sv.skip(n as int) =~= Seq::<char>::empty());
        assert(zelbar_compat(Seq::<char>::empty()) =~= Seq::<char>::empty());
        assert(zelbar_compat(sv) =~= out@.skip(base.len() as int));
        assert(out@ =~= out@.take(base.len() as int) + out@.skip(base.len() as int));
        assert(out@ =~= base + zelbar_compat(sv));
    }
}

/// Writes a run body for `prog`.
fn write_body(out: &mut String, prog: Program, text: &str, raw: bool)
    ensures
        final(out)@ == old(out)@ + spec_body(prog, text@, raw),
{
    match prog {
        Program::Lemonbar => write_lemon_body(out, text, raw),
        Program::Zelbar => write_zelbar_body(out, text, raw),
    }
}

/// Renders one run: opens its marks, writes its body, closes its marks.
pub fn render_run(out: &mut String, prog: Program, b: &Block, run: &BlockText, index: usize, monitor: u8)
    requires
        b.wf(),
    ensures
        final(out)@ == old(out)@ + spec_render_run(prog, *b, *run, index, monitor),
{
    let eff = effective(&run.decorations, &b.decorations);
    let ghost base = out@;
    write_opens(out, prog, b, eff, index, monitor);
    write_body(out, prog, run.text.as_str(), b.raw);
    write_closes(out, prog, b, eff, index, monitor);
    assert(out@ =~= base + spec_render_run(prog, *b, *run, index, monitor));
}

// ---------------------------------------------------------------------------
// a whole block: its runs, separators, and alignment markers
// ---------------------------------------------------------------------------

/// The alignment switch marker.
pub open spec fn align_marker(al: Alignment) -> Seq<char> {
    match al {
        Alignment::Left => seq!['%', '{', 'l', '}'],
        Alignment::Middle => seq!['%', '{', 'c', '}'],
        Alignment::Right => seq!['%', '{', 'r', '}'],
    }
}

/// Writes the alignment switch marker.
pub fn write_align_marker(out: &mut String, al: Alignment)
    ensures
        final(out)@ == old(out)@ + align_marker(al),
{
    let ghost base = out@;
    push_char(out, '%');
    push_char(out, '{');
    match al {
        Alignment::Left => push_char(out, 'l'),
        Alignment::Middle => push_char(out, 'c'),
        Alignment::Right => push_char(out, 'r'),
    }
    push_char(out, '}');
    assert(out@ =~= base + align_marker(al));
}

/// The configured separator's characters, if one is configured.
pub open spec fn view_sep(sep: Option<String>) -> Option<Seq<char>> {
    match sep {
        Option::Some(s) => Some(s@),
        Option::None => None,
    }
}

/// What precedes a run's markup. A separator is written only between
/// blocks — before the first run of a block that is not the first to
/// write in its alignment — never between the runs of one block. In the
/// zelbar dialect every run is also prefixed by its alignment marker.
pub open spec fn spec_start_block(
    prog: Program,
    al: Alignment,
    wrote: bool,
    sep: Option<Seq<char>>,
    delimit: bool,
) -> Seq<char> {
    match prog {
        Program::Lemonbar => if wrote && delimit && sep is Some {
            sep->0
        } else {
            Seq::empty()
        },
        Program::Zelbar => (if wrote && delimit && sep is Some {
            align_marker(al) + sep->0
        } else {
            Seq::empty()
        }) + align_marker(al),
    }
}

/// A block's markup: every non-empty run rendered in order, each with
/// its start-of-block prefix; empty runs vanish.
pub open spec fn spec_display_block(
    prog: Program,
    al: Alignment,
    b: Block,
    runs: Seq<BlockText>,
    index: usize,
    monitor: u8,
    sep: Option<Seq<char>>,
    wrote: bool,
    first: bool,
) -> Seq<char>
    decreases runs.len(),
{
    if runs.len() == 0 {
        Seq::empty()
    } else if runs[0].text@.len() == 0 {
        spec_display_block(prog, al, b, runs.skip(1), index, monitor, sep, wrote, first)
    } else {
        spec_start_block(prog, al, wrote, sep, first) + spec_render_run(
            prog,
            b,
            runs[0],
            index,
            monitor,
        ) + spec_display_block(prog, al, b, runs.skip(1), index, monitor, sep, true, false)
    }
}

/// Whether any run holds text.
pub open spec fn any_nonempty(runs: Seq<BlockText>) -> bool {
    exists|i: int| 0 <= i < runs.len() && runs[i].text@.len() > 0
}

/// One run seen makes the block a writer; none seen leaves it as it was.
proof fn lemma_any_nonempty_snoc(runs: Seq<BlockText>, i: int)
    requires
        0 <= i < runs.len(),
    ensures
        any_nonempty(runs.take(i + 1)) == (any_nonempty(runs.take(i)) || runs[i].text@.len() > 0),
{
    if runs[i].text@.len() > 0 {
        assert(runs.take(i + 1)[i].text@.len() > 0);
    }
    if any_nonempty(runs.take(i)) {
        let k = choose|k: int|
            0 <= k < runs.take(i).len() && (#[trigger] runs.take(i)[k]).text@.len() > 0;
        assert(runs.take(i + 1)[k].text@.len() > 0);
    }
    if any_nonempty(runs.take(i + 1)) && runs[i].text@.len() == 0 {
        let k = choose|k: int|
            0 <= k < runs.take(i + 1).len() && (#[trigger] runs.take(i + 1)[k]).text@.len() > 0;
        assert(k < i);
        assert(runs.take(i)[k].text@.len() > 0);
    }
}

/// Renders one block's stored runs. `wrote` says whether an earlier
/// block already wrote in this alignment; it is set as soon as this
/// block writes a run.
#[verifier::rlimit(100)]
#[verifier::spinoff_prover]
pub fn display_block(
    out: &mut String,
    prog: Program,
    al: Alignment,
    wrote: &mut bool,
    sep: &Option<String>,
    b: &Block,
    runs: &Vec<BlockText>,
    index: usize,
    monitor: u8,
)
    requires
        b.wf(),
    ensures
        final(out)@ == old(out)@ + spec_display_block(
            prog,
            al,
            *b,
            runs@,
            index,
            monitor,
            view_sep(*sep),
            *old(wrote),
            true,
        ),
        *final(wrote) == (*old(wrote) || any_nonempty(runs@)),
{
    let ghost sv = view_sep(*sep);
    let ghost w0 = *wrote;
    let ghost full = spec_display_block(prog, al, *b, runs@, index, monitor, sv, w0, true);
    let ghost base = out@;
    let ghost mut emitted: Seq<char> = Seq::empty();
    proof {
        assert(runs@.skip(0) =~= runs@);
        assert(runs@.take(0) =~= Seq::<BlockText>::empty());
        assert(!any_nonempty(Seq::<BlockText>::empty()));
    }
    let mut first = true;
    let mut i: usize = 0;
    while i < runs.len()
        invariant
            i <= runs@.len(),
            b.wf(),
            sv == view_sep(*sep),
            full == spec_display_block(prog, al, *b, runs@, index, monitor, sv, w0, true),
            out@ == base + emitted,
            full =~= emitted + spec_display_block(
                prog,
                al,
                *b,
                runs@.skip(i as int),
                index,
                monitor,
                sv,
                *wrote,
                first,
            ),
            *wrote == (w0 || any_nonempty(runs@.take(i as int))),
            first == !any_nonempty(runs@.take(i as int)),
        decreases runs@.len() - i,
    {
        let ghost rest = runs@.skip(i as int);
        let ghost pre_out = out@;
        let run = &runs[i];
        proof {
            assert(rest[0] == runs@[i as int]);
            assert(rest.skip(1) =~= runs@.skip(i + 1));
            lemma_any_nonempty_snoc(runs@, i as int);
        }
        if !run.is_empty() {
            let cur_wrote = *wrote;
            match prog {
                Program::Lemonbar => {
                    if cur_wrote && first {
                        match sep {
                            Option::Some(sp) => append_str(out, sp.as_str()),
                            Option::None => {},
                        }
                    }
                },
                Program::Zelbar => {
                    if cur_wrote && first {
                        match sep {
                            Option::Some(sp) => {
                                write_align_marker(out, al);
                                append_str(out, sp.as_str());
                            },
                            Option::None => {},
                        }
                    }
                    write_align_marker(out, al);
                },
            }
            assert(out@ =~= pre_out + spec_start_block(prog, al, cur_wrote, sv, first));
            render_run(out, prog, b, run, index, monitor);
            proof {
                let piece = spec_start_block(prog, al, cur_wrote, sv, first) + spec_render_run(
                    prog,
                    *b,
                    runs@[i as int],
                    index,
                    monitor,
                );
                assert(out@ =~= pre_out + piece);
                emitted = emitted + piece;
                assert(out@ =~= base + emitted);
            }
            *wrote = true;
            first = false;
        }
        i += 1;
    }
    proof {
        assert(runs@.take(runs@.len() as int) =~= runs@);
        assert(runs@.skip(runs@.len() as int) =~= Seq::<BlockText>::empty());
        assert(spec_display_block(
            prog,
            al,
            *b,
            Seq::<BlockText>::empty(),
            index,
            monitor,
            sv,
            *wrote,
            first,
        ) =~= Seq::<char>::empty());
        assert(out@ =~= base + full);
    }
}

} // verus!
