//! Boxes drawn with Unicode line characters, and the display width of text.
use vstd::prelude::*;
use crate::style::{color_code, colored, styled, Color};
use crate::text::{cat, copy_str, has_char, push_char, push_repeat, repeat, to_chars};

verus! {

/// What `UnicodeWidthStr::width` of unicode-width gives for a string.
pub uninterp spec fn unicode_str_width(s: Seq<char>) -> usize;

/// What `UnicodeWidthChar::width` of unicode-width gives for a character:
/// `None` for a control character.
pub uninterp spec fn unicode_char_width(c: char) -> Option<usize>;

/// The display width of `s` in columns (unicode-width's
/// `UnicodeWidthStr::width`).  Its value is named, not stated: the width
/// tables of the crate are not written out here.
#[verifier::external_body]
fn str_width(s: &str) -> (r: usize)
    ensures
        r == unicode_str_width(s@),
{
    unicode_width::UnicodeWidthStr::width(s)
}

/// The display width of `c` (unicode-width's `UnicodeWidthChar::width`),
/// `None` for control characters; named, not stated, as for strings.
#[verifier::external_body]
fn char_width(c: char) -> (r: Option<usize>)
    ensures
        r == unicode_char_width(c),
{
    unicode_width::UnicodeWidthChar::width(c)
}

/// The size of the terminal that standard output is (termsize's `get`),
/// in columns.  It depends on the terminal, so nothing is stated of it.
#[verifier::external_body]
fn terminal_columns() -> (r: Option<u16>) {
    termsize::get().map(|s| s.cols)
}

/// The width to draw for: the terminal's columns, or 80 where there is no
/// terminal.
pub open spec fn width_from_columns(cols: Option<u16>) -> usize {
    match cols {
        Some(c) => c as usize,
        None => 80,
    }
}

/// The width to draw for, given what the terminal reported.
pub fn width_from(cols: Option<u16>) -> (w: usize)
    ensures
        w == width_from_columns(cols),
{
    match cols {
        Some(c) => c as usize,
        None => 80,
    }
}

/// The width of the terminal, or 80.
pub fn term_width() -> (w: usize)
    ensures
        exists|cols: Option<u16>| w == width_from_columns(cols),
        w <= 65535,
{
    let cols = terminal_columns();
    width_from(cols)
}

/// The display width of a character as the interface counts it: zero for a
/// control character.
pub open spec fn char_cols(c: char) -> nat {
    match unicode_char_width(c) {
        Some(w) => w as nat,
        None => 0,
    }
}

/// `n as u8` for a character (its low eight bits).
pub open spec fn low_byte(c: char) -> nat {
    ((c as u32) % 256) as nat
}

/// A character that ends an escape sequence: its low byte is in
/// `0x40..=0x7e` and it is not `[`.
pub open spec fn ends_escape(c: char) -> bool {
    0x40 <= low_byte(c) <= 0x7e && c != '['
}

/// `s` with escape sequences removed.  An escape character starts a
/// sequence, which runs up to and including the next escape character or
/// the next character that [`ends_escape`].
pub open spec fn strip_ansi_from(s: Seq<char>, in_escape: bool) -> Seq<char>
    decreases s.len(),
{
    if s.len() == 0 {
        Seq::empty()
    } else if !in_escape {
        if s[0] == '\x1b' {
            strip_ansi_from(s.drop_first(), true)
        } else {
            seq![s[0]] + strip_ansi_from(s.drop_first(), false)
        }
    } else if s[0] == '\x1b' || ends_escape(s[0]) {
        strip_ansi_from(s.drop_first(), false)
    } else {
        strip_ansi_from(s.drop_first(), true)
    }
}

/// `s` with its escape sequences removed.
pub open spec fn strip_ansi_spec(s: Seq<char>) -> Seq<char> {
    strip_ansi_from(s, false)
}

/// A character that may stand inside a colour sequence before its final `m`.
pub open spec fn sgr_body_char(c: char) -> bool {
    c == '[' || c == ';' || ('0' <= c && c <= '9')
}

/// Text without its escape sequences holds no escape character.
pub proof fn lemma_strip_has_no_escape(s: Seq<char>, e: bool)
    ensures
        !has_char(strip_ansi_from(s, e), '\x1b'),
    decreases s.len(),
{
    if s.len() > 0 {
        lemma_strip_has_no_escape(s.drop_first(), true);
        lemma_strip_has_no_escape(s.drop_first(), false);
        if !e && s[0] != '\x1b' {
            let r = strip_ansi_from(s.drop_first(), false);
            let t = seq![s[0]] + r;
            assert forall|i: int| 0 <= i < t.len() implies t[i] != '\x1b' by {
                if i > 0 {
                    assert(t[i] == r[i - 1]);
                }
            }
        }
    }
}

/// Text up to an escape character is kept as it is.
pub proof fn lemma_strip_plain_prefix(t: Seq<char>, r: Seq<char>)
    requires
        !has_char(t, '\x1b'),
    ensures
        strip_ansi_from(t + r, false) == t + strip_ansi_from(r, false),
    decreases t.len(),
{
    if t.len() == 0 {
        assert(t + r =~= r);
        assert(t + strip_ansi_from(r, false) =~= strip_ansi_from(r, false));
    } else {
        assert(!has_char(t.drop_first(), '\x1b')) by {
            if has_char(t.drop_first(), '\x1b') {
                let i = choose|i: int| 0 <= i < t.drop_first().len() && t.drop_first()[i] == '\x1b';
                assert(t[i + 1] == '\x1b');
            }
        }
        assert(t[0] != '\x1b');
        lemma_strip_plain_prefix(t.drop_first(), r);
        assert((t + r).drop_first() =~= t.drop_first() + r);
        assert((t + r)[0] == t[0]);
        assert(t =~= seq![t[0]] + t.drop_first());
    }
}

/// The body of a colour sequence and its final `m` are dropped.
pub proof fn lemma_strip_sgr_body(body: Seq<char>, r: Seq<char>)
    requires
        forall|i: int| 0 <= i < body.len() ==> sgr_body_char(#[trigger] body[i]),
    ensures
        strip_ansi_from(body + seq!['m'] + r, true) == strip_ansi_from(r, false),
    decreases body.len(),
{
    let x = body + seq!['m'] + r;
    if body.len() == 0 {
        assert(x[0] == 'm');
        assert(('m' as u32) % 256 == 0x6d);
        assert(x.drop_first() =~= r);
    } else {
        let c = body[0];
        assert(x[0] == c);
        assert(sgr_body_char(c));
        assert(c == '[' || (c as u32) % 256 < 0x40);
        assert(x.drop_first() =~= body.drop_first() + seq!['m'] + r);
        lemma_strip_sgr_body(body.drop_first(), r);
    }
}

/// A text wrapped in a colour sequence and the reset sequence loses both
/// when escape sequences are removed.
pub proof fn lemma_strip_styled(t: Seq<char>, body: Seq<char>)
    requires
        !has_char(t, '\x1b'),
        forall|i: int| 0 <= i < body.len() ==> sgr_body_char(#[trigger] body[i]),
    ensures
        strip_ansi_from(seq!['\x1b'] + body + seq!['m'] + t + "\x1b[0m"@, false) == t,
{
    reveal_strlit("\x1b[0m");
    let reset_body = seq!['[', '0'];
    assert("\x1b[0m"@ =~= seq!['\x1b'] + reset_body + seq!['m'] + Seq::<char>::empty());
    let whole = seq!['\x1b'] + body + seq!['m'] + t + "\x1b[0m"@;
    assert(whole[0] == '\x1b');
    assert(whole.drop_first() =~= body + seq!['m'] + (t + "\x1b[0m"@));
    lemma_strip_sgr_body(body, t + "\x1b[0m"@);
    lemma_strip_plain_prefix(t, "\x1b[0m"@);
    let reset = "\x1b[0m"@;
    assert(reset[0] == '\x1b');
    assert(reset.drop_first() =~= reset_body + seq!['m'] + Seq::<char>::empty());
    lemma_strip_sgr_body(reset_body, Seq::<char>::empty());
    assert(t + Seq::<char>::empty() =~= t);
}

/// Removing escape sequences twice removes no more than once.
pub proof fn lemma_strip_ansi_idempotent(s: Seq<char>)
    ensures
        strip_ansi_spec(strip_ansi_spec(s)) == strip_ansi_spec(s),
{
    lemma_strip_has_no_escape(s, false);
    let t = strip_ansi_spec(s);
    lemma_strip_plain_prefix(t, Seq::<char>::empty());
    assert(t + Seq::<char>::empty() =~= t);
}

/// Colour does not change what a text looks like once escape sequences
/// are removed, nor so its display width: a text without escape characters
/// shows as itself, in colour or not.
pub proof fn lemma_colour_keeps_width(t: Seq<char>, c: Color, plain: bool)
    requires
        !has_char(t, '\x1b'),
    ensures
        strip_ansi_spec(t) == t,
        strip_ansi_spec(colored(t, c, plain)) == t,
        strip_ansi_spec(styled(t, "\x1b[1m"@, plain)) == t,
        strip_ansi_spec(styled(t, "\x1b[2m"@, plain)) == t,
        display_width_spec(colored(t, c, plain)) == display_width_spec(t),
        display_width_spec(styled(t, "\x1b[1m"@, plain)) == display_width_spec(t),
        display_width_spec(styled(t, "\x1b[2m"@, plain)) == display_width_spec(t),
{
    lemma_strip_plain_prefix(t, Seq::<char>::empty());
    assert(t + Seq::<char>::empty() =~= t);
    reveal_strlit("\x1b[");
    reveal_strlit("m");
    reveal_strlit("\x1b[1m");
    reveal_strlit("\x1b[2m");
    reveal_strlit("1;31");
    reveal_strlit("1;32");
    reveal_strlit("1;33");
    reveal_strlit("1;34");
    reveal_strlit("1;36");
    if !plain {
        let code = color_code(c);
        let body = seq!['['] + code;
        assert forall|i: int| 0 <= i < body.len() implies sgr_body_char(#[trigger] body[i]) by {
            if i > 0 {
                assert(body[i] == code[i - 1]);
            }
        }
        assert("\x1b["@ + code + "m"@ + t + "\x1b[0m"@ =~= seq!['\x1b'] + body + seq!['m'] + t + "\x1b[0m"@);
        lemma_strip_styled(t, body);
        let b1 = seq!['[', '1'];
        assert forall|i: int| 0 <= i < b1.len() implies sgr_body_char(#[trigger] b1[i]) by {}
        assert("\x1b[1m"@ + t + "\x1b[0m"@ =~= seq!['\x1b'] + b1 + seq!['m'] + t + "\x1b[0m"@);
        lemma_strip_styled(t, b1);
        let b2 = seq!['[', '2'];
        assert forall|i: int| 0 <= i < b2.len() implies sgr_body_char(#[trigger] b2[i]) by {}
        assert("\x1b[2m"@ + t + "\x1b[0m"@ =~= seq!['\x1b'] + b2 + seq!['m'] + t + "\x1b[0m"@);
        lemma_strip_styled(t, b2);
    }
}

/// The display width of `s` once its escape sequences are removed.
pub open spec fn display_width_spec(s: Seq<char>) -> nat {
    unicode_str_width(strip_ansi_spec(s)) as nat
}

/// Removes terminal escape sequences from `s`.
pub fn strip_ansi(s: &str) -> (r: String)
    ensures
        r@ == strip_ansi_spec(s@),
{
    let v = to_chars(s);
    let mut out = String::new();
    let mut esc = false;
    let mut i: usize = 0;
    assert(v@.skip(0) =~= v@);
    while i < v.len()
        invariant
            i <= v@.len(),
            out@ + strip_ansi_from(v@.skip(i as int), esc) == strip_ansi_from(v@, false),
        decreases v@.len() - i,
    {
        let c = v[i];
        let ghost rest = v@.skip(i as int);
        assert(rest.drop_first() =~= v@.skip(i + 1));
        assert(rest[0] == c);
        if !esc {
            if c == '\x1b' {
                esc = true;
            } else {
                assert(out@.push(c) + strip_ansi_from(v@.skip(i + 1), false) =~= out@ + (seq![c]
                    + strip_ansi_from(rest.drop_first(), false)));
                push_char(&mut out, c);
            }
        } else {
            let b: u32 = (c as u32) % 256;
            assert(b as nat == low_byte(c));
            if c == '\x1b' || (0x40 <= b && b <= 0x7e && c != '[') {
                esc = false;
            }
        }
        i = i + 1;
    }
    assert(v@.skip(i as int) =~= Seq::<char>::empty());
    assert(out@ + Seq::<char>::empty() =~= out@);
    out
}

/// The display width of `s`, escape sequences not counted.
pub fn display_width(s: &str) -> (w: usize)
    ensures
        w == display_width_spec(s@),
{
    let t = strip_ansi(s);
    str_width(t.as_str())
}

/// The longest prefix of `s` whose characters, counted from `used` columns,
/// stay within `limit` columns.
pub open spec fn crop_spec(s: Seq<char>, limit: nat, used: nat) -> Seq<char>
    decreases s.len(),
{
    if s.len() == 0 {
        Seq::empty()
    } else if used + char_cols(s[0]) > limit {
        Seq::empty()
    } else {
        seq![s[0]] + crop_spec(s.drop_first(), limit, used + char_cols(s[0]))
    }
}

/// The longest prefix of `s` that fits in `limit` columns.
pub fn crop(s: &str, limit: usize) -> (r: String)
    ensures
        r@ == crop_spec(s@, limit as nat, 0),
{
    let v = to_chars(s);
    let mut r = String::new();
    let mut cw: usize = 0;
    let mut i: usize = 0;
    assert(v@.skip(0) =~= v@);
    assert(r@ + crop_spec(v@, limit as nat, 0) =~= crop_spec(v@, limit as nat, 0));
    while i < v.len()
        invariant
            v@ == s@,
            i <= v@.len(),
            cw <= limit,
            r@ + crop_spec(v@.skip(i as int), limit as nat, cw as nat) == crop_spec(
                v@,
                limit as nat,
                0,
            ),
        decreases v@.len() - i,
    {
        let c = v[i];
        let ghost rest = v@.skip(i as int);
        assert(rest.drop_first() =~= v@.skip(i + 1));
        assert(rest[0] == c);
        let dw: usize = match char_width(c) {
            Some(w) => w,
            None => 0,
        };
        assert(dw as nat == char_cols(c));
        if dw > limit - cw {
            assert(crop_spec(rest, limit as nat, cw as nat) =~= Seq::<char>::empty());
            assert(r@ + Seq::<char>::empty() =~= r@);
            return r;
        }
        assert(r@.push(c) + crop_spec(v@.skip(i + 1), limit as nat, (cw + dw) as nat) =~= r@
            + (seq![c] + crop_spec(rest.drop_first(), limit as nat, (cw + dw) as nat)));
        push_char(&mut r, c);
        cw = cw + dw;
        i = i + 1;
    }
    assert(v@.skip(i as int) =~= Seq::<char>::empty());
    assert(r@ + Seq::<char>::empty() =~= r@);
    r
}

/// `a - b`, or zero.
pub open spec fn sat_sub(a: int, b: int) -> nat {
    if a > b {
        (a - b) as nat
    } else {
        0
    }
}

/// The top edge of a box `w` columns wide, with an optional title.
pub open spec fn box_top_spec(title: Seq<char>, w: nat) -> Seq<char> {
    let inner = sat_sub(w as int, 2);
    if title.len() == 0 {
        "┌"@ + repeat('─', inner) + "┐"@
    } else {
        let head = "─ "@ + title + " "@;
        "┌"@ + head + repeat('─', sat_sub(inner as int, display_width_spec(head) as int))
            + "┐"@
    }
}

/// The bottom edge of a box `w` columns wide.
pub open spec fn box_bottom_spec(w: nat) -> Seq<char> {
    "└"@ + repeat('─', sat_sub(w as int, 2)) + "┘"@
}

/// A row of a box `w` columns wide.  Content too wide for the box is cut
/// and ends with an ellipsis.
pub open spec fn box_row_spec(content: Seq<char>, w: nat) -> Seq<char> {
    let inner = sat_sub(w as int, 2);
    let disp = display_width_spec(content);
    if disp + 1 >= inner {
        let avail = sat_sub(inner as int, 2);
        "│ "@ + crop_spec(content, sat_sub(avail as int, 1), 0) + "… │"@
    } else {
        "│ "@ + content + repeat(' ', (inner - disp - 1) as nat) + "│"@
    }
}

/// The top edge of a box `w` columns wide.
pub fn box_top_width(title: &str, w: usize) -> (r: String)
    ensures
        r@ == box_top_spec(title@, w as nat),
{
    let inner = if w > 2 { w - 2 } else { 0 };
    let mut r = copy_str("┌");
    if title.is_empty() {
        push_repeat(&mut r, '─', inner);
    } else {
        let mut head = cat("─ ", title);
        head.append(" ");
        let hw = display_width(head.as_str());
        r.append(head.as_str());
        push_repeat(&mut r, '─', if inner > hw { inner - hw } else { 0 });
    }
    r.append("┐");
    r
}

/// The top edge of a box as wide as the terminal.
pub fn box_top(title: &str) -> (r: String)
    ensures
        exists|cols: Option<u16>| r@ == box_top_spec(title@, width_from_columns(cols) as nat),
{
    box_top_width(title, term_width())
}

/// The bottom edge of a box `w` columns wide.
pub fn box_bottom_width(w: usize) -> (r: String)
    ensures
        r@ == box_bottom_spec(w as nat),
{
    let inner = if w > 2 { w - 2 } else { 0 };
    let mut r = copy_str("└");
    push_repeat(&mut r, '─', inner);
    r.append("┘");
    r
}

/// The bottom edge of a box as wide as the terminal.
pub fn box_bottom() -> (r: String)
    ensures
        exists|cols: Option<u16>| r@ == box_bottom_spec(width_from_columns(cols) as nat),
{
    box_bottom_width(term_width())
}

/// A row of a box `w` columns wide.
pub fn box_row_width(content: &str, w: usize) -> (r: String)
    ensures
        r@ == box_row_spec(content@, w as nat),
{
    let inner = if w > 2 { w - 2 } else { 0 };
    let disp = display_width(content);
    if inner == 0 || disp >= inner - 1 {
        let avail = if inner > 2 { inner - 2 } else { 0 };
        let mut r = copy_str("│ ");
        r.append(crop(content, if avail > 1 { avail - 1 } else { 0 }).as_str());
        r.append("… │");
        r
    } else {
        let mut r = cat("│ ", content);
        push_repeat(&mut r, ' ', inner - disp - 1);
        r.append("│");
        r
    }
}

/// A row of a box as wide as the terminal.
pub fn box_row(content: &str) -> (r: String)
    ensures
        exists|cols: Option<u16>| r@ == box_row_spec(content@, width_from_columns(cols) as nat),
{
    box_row_width(content, term_width())
}

} // verus!
