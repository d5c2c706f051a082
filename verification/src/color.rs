use vstd::prelude::*;
use vstd::string::StrSliceExecFns;
use vstd::string::StringExecFns;
use crate::text::{text_eq, decimal, hex_byte, hex_digit, push_decimal, push_hex_byte};
use crate::palette::{palette, term_colors};

verus! {

/// How many colours the terminal can show.
#[derive(Debug, Clone, Copy, PartialEq, Eq, Structural)]
pub enum TermColorSupport {
    TrueColor,
    Ansi256,
    Ansi16,
    NoColor,
}

/// The colour support announced by the `COLORTERM` and `TERM` environment
/// variables (`None` where a variable is unset or not valid Unicode).
pub open spec fn color_support_of(colorterm: Option<Seq<char>>, term: Option<Seq<char>>) -> TermColorSupport {
    match colorterm {
        Some(v) => {
            if v == "truecolor"@ || v == "24bit"@ {
                TermColorSupport::TrueColor
            } else if v == "256color"@ || v == "8bit"@ {
                TermColorSupport::Ansi256
            } else {
                TermColorSupport::Ansi16
            }
        },
        None => match term {
            Some(v) => {
                if v == "xterm-256color"@ || v == "screen-256color"@ || v == "tmux-256color"@
                    || v == "rxvt-unicode-256color"@ || v == "linux"@ {
                    TermColorSupport::Ansi256
                } else {
                    TermColorSupport::Ansi16
                }
            },
            None => TermColorSupport::NoColor,
        },
    }
}

proof fn lemma_colorterm_values_distinct()
    ensures
        "256color"@ != "truecolor"@,
        "256color"@ != "24bit"@,
        "8bit"@ != "truecolor"@,
        "8bit"@ != "24bit"@,
{
    reveal_strlit("256color");
    reveal_strlit("8bit");
    reveal_strlit("truecolor");
    reveal_strlit("24bit");
    assert("256color"@[0] != "truecolor"@[0]);
    assert("256color"@[1] != "24bit"@[1]);
    assert("8bit"@[0] != "truecolor"@[0]);
    assert("8bit"@[0] != "24bit"@[0]);
}

/// Decides the colour support from the values of `COLORTERM` and `TERM`.
pub fn get_term_color_support(colorterm: Option<String>, term: Option<String>) -> (r: TermColorSupport)
    ensures
        r == color_support_of(
            match colorterm { Some(v) => Some(v@), None => None },
            match term { Some(v) => Some(v@), None => None },
        ),
        // COLORTERM, when set, decides alone.
        colorterm is Some && (colorterm->0@ == "truecolor"@ || colorterm->0@ == "24bit"@) ==> r == TermColorSupport::TrueColor,
        colorterm is Some && (colorterm->0@ == "256color"@ || colorterm->0@ == "8bit"@) ==> r == TermColorSupport::Ansi256,
        colorterm is Some && !(colorterm->0@ == "truecolor"@ || colorterm->0@ == "24bit"@ || colorterm->0@ == "256color"@ || colorterm->0@ == "8bit"@)
            ==> r == TermColorSupport::Ansi16,
        // Otherwise TERM names the terminal.
        colorterm is None && term is Some && term->0@ == "xterm-256color"@ ==> r == TermColorSupport::Ansi256,
        colorterm is None && term is Some && term->0@ == "screen-256color"@ ==> r == TermColorSupport::Ansi256,
        colorterm is None && term is Some && term->0@ == "tmux-256color"@ ==> r == TermColorSupport::Ansi256,
        colorterm is None && term is Some && term->0@ == "rxvt-unicode-256color"@ ==> r == TermColorSupport::Ansi256,
        colorterm is None && term is Some && term->0@ == "linux"@ ==> r == TermColorSupport::Ansi256,
        colorterm is None && term is Some && !(term->0@ == "xterm-256color"@ || term->0@ == "screen-256color"@
            || term->0@ == "tmux-256color"@ || term->0@ == "rxvt-unicode-256color"@ || term->0@ == "linux"@) ==> r == TermColorSupport::Ansi16,
        colorterm is None && term is None ==> r == TermColorSupport::NoColor,
{
    proof {
        lemma_colorterm_values_distinct();
    }
    match colorterm {
        Some(v) => {
            if text_eq(&v, "truecolor") || text_eq(&v, "24bit") {
                TermColorSupport::TrueColor
            } else if text_eq(&v, "256color") || text_eq(&v, "8bit") {
                TermColorSupport::Ansi256
            } else {
                TermColorSupport::Ansi16
            }
        },
        None => match term {
            Some(v) => {
                if text_eq(&v, "xterm-256color") || text_eq(&v, "screen-256color")
                    || text_eq(&v, "tmux-256color") || text_eq(&v, "rxvt-unicode-256color")
                    || text_eq(&v, "linux") {
                    TermColorSupport::Ansi256
                } else {
                    TermColorSupport::Ansi16
                }
            },
            None => TermColorSupport::NoColor,
        },
    }
}

/// An RGB colour.
#[derive(Debug, Clone, Copy, PartialEq, Eq, Structural)]
pub struct Color {
    r: u8,
    g: u8,
    b: u8,
}

impl View for Color {
    type V = (u8, u8, u8);

    closed spec fn view(&self) -> (u8, u8, u8) {
        (self.r, self.g, self.b)
    }
}

impl Default for Color {
    /// Black.
    fn default() -> (c: Color)
        ensures
            c@ == (0u8, 0u8, 0u8),
    {
        Color { r: 0, g: 0, b: 0 }
    }
}

// ---------------------------------------------------------------------------
// Hexadecimal notation

/// `s` with every leading `#` removed.
pub open spec fn strip_hashes(s: Seq<char>) -> Seq<char>
    decreases s.len(),
{
    if s.len() > 0 && s[0] == '#' {
        strip_hashes(s.drop_first())
    } else {
        s
    }
}

pub open spec fn is_hex_char(c: char) -> bool {
    ('0' <= c <= '9') || ('a' <= c <= 'f') || ('A' <= c <= 'F')
}

pub open spec fn hex_value(c: char) -> nat {
    if '0' <= c <= '9' {
        (c as int - 48) as nat
    } else if 'a' <= c <= 'f' {
        (c as int - 87) as nat
    } else {
        (c as int - 55) as nat
    }
}

/// Two characters that read as a byte in base 16: two hexadecimal digits,
/// or a `+` sign and one digit.
pub open spec fn is_hex_pair(c0: char, c1: char) -> bool {
    (is_hex_char(c0) && is_hex_char(c1)) || (c0 == '+' && is_hex_char(c1))
}

pub open spec fn hex_pair_value(c0: char, c1: char) -> u8 {
    if c0 == '+' {
        hex_value(c1) as u8
    } else {
        (16 * hex_value(c0) + hex_value(c1)) as u8
    }
}

/// After its leading `#`s, `s` starts with three channels in base 16.
pub open spec fn is_hex_color(s: Seq<char>) -> bool {
    let t = strip_hashes(s);
    &&& t.len() >= 6
    &&& is_hex_pair(t[0], t[1])
    &&& is_hex_pair(t[2], t[3])
    &&& is_hex_pair(t[4], t[5])
}

/// The channels that `s` spells (meaningful where `is_hex_color(s)`).
pub open spec fn hex_color(s: Seq<char>) -> (u8, u8, u8) {
    let t = strip_hashes(s);
    (hex_pair_value(t[0], t[1]), hex_pair_value(t[2], t[3]), hex_pair_value(t[4], t[5]))
}

/// `#rrggbb` in lower-case hexadecimal.
pub open spec fn hex_notation(c: (u8, u8, u8)) -> Seq<char> {
    seq!['#'] + hex_byte(c.0) + hex_byte(c.1) + hex_byte(c.2)
}

proof fn lemma_strip_prefix(s: Seq<char>, k: int)
    requires
        0 <= k <= s.len(),
        forall|i: int| 0 <= i < k ==> s[i] == '#',
    ensures
        strip_hashes(s) == strip_hashes(s.skip(k)),
    decreases k,
{
    if k > 0 {
        assert(s[0] == '#');
        assert(strip_hashes(s) == strip_hashes(s.drop_first()));
        assert(s.drop_first().skip(k - 1) =~= s.skip(k));
        lemma_strip_prefix(s.drop_first(), k - 1);
    } else {
        assert(s.skip(0) =~= s);
    }
}

fn hex_value_of(c: char) -> (r: Option<u8>)
    ensures
        r is Some <==> is_hex_char(c),
        r matches Some(v) ==> v == hex_value(c) && v < 16,
{
    if '0' <= c && c <= '9' {
        Some(((c as u32) - 48) as u8)
    } else if 'a' <= c && c <= 'f' {
        Some(((c as u32) - 87) as u8)
    } else if 'A' <= c && c <= 'F' {
        Some(((c as u32) - 55) as u8)
    } else {
        None
    }
}

fn hex_pair_of(c0: char, c1: char) -> (r: Option<u8>)
    ensures
        r is Some <==> is_hex_pair(c0, c1),
        r matches Some(v) ==> v == hex_pair_value(c0, c1),
{
    let lo = match hex_value_of(c1) {
        Some(v) => v,
        None => return None,
    };
    if c0 == '+' {
        return Some(lo);
    }
    match hex_value_of(c0) {
        Some(hi) => Some(hi * 16 + lo),
        None => None,
    }
}

proof fn lemma_hex_byte_round_trip(b: u8)
    ensures
        is_hex_pair(hex_byte(b)[0], hex_byte(b)[1]),
        !(hex_byte(b)[0] == '+'),
        !(hex_byte(b)[0] == '#'),
        hex_pair_value(hex_byte(b)[0], hex_byte(b)[1]) == b,
{
    let hi = (b / 16) as nat;
    let lo = (b % 16) as nat;
    assert(hi < 16 && lo < 16);
    assert(hex_value(hex_digit(hi)) == hi);
    assert(hex_value(hex_digit(lo)) == lo);
}

/// Reading back what `to_hex` writes gives the same colour.
pub proof fn lemma_hex_round_trip(c: (u8, u8, u8))
    ensures
        is_hex_color(hex_notation(c)),
        hex_color(hex_notation(c)) == c,
{
    let s = hex_notation(c);
    let t = hex_byte(c.0) + hex_byte(c.1) + hex_byte(c.2);
    lemma_hex_byte_round_trip(c.0);
    lemma_hex_byte_round_trip(c.1);
    lemma_hex_byte_round_trip(c.2);
    assert(s.drop_first() =~= t);
    assert(strip_hashes(s) == strip_hashes(t));
    assert(t[0] == hex_byte(c.0)[0]);
    assert(strip_hashes(t) == t);
    assert(t[1] == hex_byte(c.0)[1]);
    assert(t[2] == hex_byte(c.1)[0]);
    assert(t[3] == hex_byte(c.1)[1]);
    assert(t[4] == hex_byte(c.2)[0]);
    assert(t[5] == hex_byte(c.2)[1]);
}


// ---------------------------------------------------------------------------
// Nearest palette entry

/// The squared distance in RGB space between `target` and `candidate`.
pub open spec fn score(target: (u8, u8, u8), candidate: (u8, u8, u8)) -> int {
    (candidate.0 - target.0) * (candidate.0 - target.0)
        + (candidate.1 - target.1) * (candidate.1 - target.1)
        + (candidate.2 - target.2) * (candidate.2 - target.2)
}

/// Among the indices `0 .. n` of `colors` (`n >= 1`), the first one of
/// lowest score.
pub open spec fn first_lowest(colors: Seq<(u8, u8, u8)>, target: (u8, u8, u8), n: int) -> int
    decreases n,
{
    if n <= 1 {
        0
    } else {
        let k = first_lowest(colors, target, n - 1);
        if score(target, colors[n - 1]) < score(target, colors[k]) {
            n - 1
        } else {
            k
        }
    }
}

/// The index of the colour of `colors` nearest to `target`: the least index
/// among those at the least distance.
pub open spec fn closest_index(colors: Seq<(u8, u8, u8)>, target: (u8, u8, u8)) -> int {
    first_lowest(colors, target, colors.len() as int)
}

/// The index `first_lowest` picks has the lowest score among `0 .. n`, and
/// every index before it scores higher.
pub proof fn lemma_first_lowest(colors: Seq<(u8, u8, u8)>, target: (u8, u8, u8), n: int)
    requires
        1 <= n <= colors.len(),
    ensures
        0 <= first_lowest(colors, target, n) < n,
        forall|j: int| 0 <= j < n ==> score(target, colors[first_lowest(colors, target, n)])
            <= score(target, #[trigger] colors[j]),
        forall|j: int| 0 <= j < first_lowest(colors, target, n) ==> score(target, colors[first_lowest(colors, target, n)])
            < score(target, #[trigger] colors[j]),
    decreases n,
{
    if n > 1 {
        lemma_first_lowest(colors, target, n - 1);
    }
}

/// `score` is the squared Euclidean distance between the two colours.
pub proof fn lemma_score_is_squared_distance(t: (u8, u8, u8), c: (u8, u8, u8))
    ensures
        score(t, c) == (c.0 as int - t.0 as int) * (c.0 as int - t.0 as int)
            + (c.1 as int - t.1 as int) * (c.1 as int - t.1 as int)
            + (c.2 as int - t.2 as int) * (c.2 as int - t.2 as int),
        score(t, c) >= 0,
        score(t, c) == 0 <==> t == c,
{
    assert((c.0 as int - t.0 as int) * (c.0 as int - t.0 as int) >= 0) by (nonlinear_arith);
    assert((c.1 as int - t.1 as int) * (c.1 as int - t.1 as int) >= 0) by (nonlinear_arith);
    assert((c.2 as int - t.2 as int) * (c.2 as int - t.2 as int) >= 0) by (nonlinear_arith);
    if score(t, c) == 0 {
        assert(c.0 as int - t.0 as int == 0) by (nonlinear_arith)
            requires (c.0 as int - t.0 as int) * (c.0 as int - t.0 as int) == 0;
        assert(c.1 as int - t.1 as int == 0) by (nonlinear_arith)
            requires (c.1 as int - t.1 as int) * (c.1 as int - t.1 as int) == 0;
        assert(c.2 as int - t.2 as int == 0) by (nonlinear_arith)
            requires (c.2 as int - t.2 as int) * (c.2 as int - t.2 as int) == 0;
        assert(t == (c.0, c.1, c.2));
    }
    if t == c {
        assert(score(t, c) == 0) by (nonlinear_arith)
            requires t == c, score(t, c) == (c.0 as int - t.0 as int) * (c.0 as int - t.0 as int)
                + (c.1 as int - t.1 as int) * (c.1 as int - t.1 as int)
                + (c.2 as int - t.2 as int) * (c.2 as int - t.2 as int);
    }
}

/// A colour that stands in the list is found at distance zero: the nearest
/// index is the first index holding exactly that colour.
pub proof fn lemma_closest_exact_match(colors: Seq<(u8, u8, u8)>, target: (u8, u8, u8), k: int)
    requires
        0 <= k < colors.len(),
        colors[k] == target,
        forall|j: int| 0 <= j < k ==> colors[j] != target,
    ensures
        closest_index(colors, target) == k,
{
    lemma_first_lowest(colors, target, colors.len() as int);
    let i = closest_index(colors, target);
    lemma_score_is_squared_distance(target, colors[k]);
    lemma_score_is_squared_distance(target, colors[i]);
    if i < k {
        assert(score(target, colors[i]) <= score(target, colors[k]));
    } else if i > k {
        assert(score(target, colors[i]) < score(target, colors[k]));
    }
}

/// The foreground code of entry `k` (`0 <= k < 16`) of the sixteen system
/// colours: `3k` for the standard colours, `9(k - 8)` for the bright ones.
pub open spec fn ansi16_code(k: int) -> Seq<char> {
    if k < 8 {
        decimal(3) + decimal(k as nat)
    } else {
        decimal(9) + decimal((k - 8) as nat)
    }
}

/// The terminal escape sequence that selects colour `c` under `support`
/// (`None` for a terminal without colours).
pub open spec fn escape_sequence(c: (u8, u8, u8), support: TermColorSupport) -> Option<Seq<char>> {
    match support {
        TermColorSupport::TrueColor => Some(
            "\x1b[38;2;"@ + decimal(c.0 as nat) + seq![';'] + decimal(c.1 as nat) + seq![';']
                + decimal(c.2 as nat) + seq!['m'],
        ),
        TermColorSupport::Ansi256 => Some(
            "\x1b[38;5;"@ + decimal(closest_index(palette(), c) as nat) + seq!['m'],
        ),
        TermColorSupport::Ansi16 => {
            Some("\x1b["@ + ansi16_code(closest_index(palette().take(16), c)) + seq!['m'])
        },
        TermColorSupport::NoColor => None,
    }
}

pub open spec fn views(colors: Seq<Color>) -> Seq<(u8, u8, u8)> {
    colors.map_values(|c: Color| c@)
}

impl Color {
    /// Two colours are the same exactly when their channels are.
    pub proof fn lemma_view_injective(a: Color, b: Color)
        ensures
            a@ == b@ <==> a == b,
    {
    }

    /// New colour from its red, green and blue channels.
    pub fn new_rgb(red: u8, green: u8, blue: u8) -> (c: Color)
        ensures
            c@ == (red, green, blue),
    {
        Color { r: red, g: green, b: blue }
    }

    /// The colour of a hue sector (`0 <= sector < 6`, one sector for each
    /// 60 degrees of hue) from its largest, middle and smallest channel.
    pub fn from_hue_sector(sector: u8, largest: u8, middle: u8, smallest: u8) -> (c: Color)
        requires
            sector < 6,
        ensures
            c@ == (if sector == 0 {
                (largest, middle, smallest)
            } else if sector == 1 {
                (middle, largest, smallest)
            } else if sector == 2 {
                (smallest, largest, middle)
            } else if sector == 3 {
                (smallest, middle, largest)
            } else if sector == 4 {
                (middle, smallest, largest)
            } else {
                (largest, smallest, middle)
            }),
    {
        if sector == 0 {
            Color { r: largest, g: middle, b: smallest }
        } else if sector == 1 {
            Color { r: middle, g: largest, b: smallest }
        } else if sector == 2 {
            Color { r: smallest, g: largest, b: middle }
        } else if sector == 3 {
            Color { r: smallest, g: middle, b: largest }
        } else if sector == 4 {
            Color { r: middle, g: smallest, b: largest }
        } else {
            Color { r: largest, g: smallest, b: middle }
        }
    }

    /// Reads `#rrggbb` (any number of leading `#`, digits in either case;
    /// each channel may also be written `+d`); `None` where `hex` does not
    /// start that way.
    pub fn try_new_hex(hex: &str) -> (r: Option<Color>)
        ensures
            r is Some <==> is_hex_color(hex@),
            r matches Some(c) ==> c@ == hex_color(hex@),
    {
        let n = hex.unicode_len();
        let mut k: usize = 0;
        while k < n && hex.get_char(k) == '#'
            invariant
                n == hex@.len(),
                k <= n,
                forall|i: int| 0 <= i < k ==> hex@[i] == '#',
            decreases n - k,
        {
            k = k + 1;
        }
        proof {
            lemma_strip_prefix(hex@, k as int);
            let t = hex@.skip(k as int);
            assert(strip_hashes(t) == t);
        }
        if n - k < 6 {
            return None;
        }
        let r = match hex_pair_of(hex.get_char(k), hex.get_char(k + 1)) {
            Some(v) => v,
            None => return None,
        };
        let g = match hex_pair_of(hex.get_char(k + 2), hex.get_char(k + 3)) {
            Some(v) => v,
            None => return None,
        };
        let b = match hex_pair_of(hex.get_char(k + 4), hex.get_char(k + 5)) {
            Some(v) => v,
            None => return None,
        };
        Some(Color { r, g, b })
    }

    /// Reads `#rrggbb`; `hex` must start that way (see `try_new_hex`).
    pub fn new_hex(hex: &str) -> (c: Color)
        requires
            is_hex_color(hex@),
        ensures
            c@ == hex_color(hex@),
    {
        match Color::try_new_hex(hex) {
            Some(c) => c,
            None => Color { r: 0, g: 0, b: 0 },
        }
    }

    /// The colour as `#rrggbb` in lower-case hexadecimal.
    pub fn to_hex(&self) -> (s: String)
        ensures
            s@ == hex_notation(self@),
            s@ == seq!['#', hex_digit((self@.0 / 16) as nat), hex_digit((self@.0 % 16) as nat),
                hex_digit((self@.1 / 16) as nat), hex_digit((self@.1 % 16) as nat),
                hex_digit((self@.2 / 16) as nat), hex_digit((self@.2 % 16) as nat)],
    {
        let mut s = String::new();
        s.push('#');
        push_hex_byte(&mut s, self.r);
        push_hex_byte(&mut s, self.g);
        push_hex_byte(&mut s, self.b);
        s
    }
    /// The entry of `colors` nearest to this colour in RGB space (the first
    /// such entry), with its index.
    fn closest_color(&self, colors: &[Color]) -> (r: (Color, usize))
        requires
            colors@.len() > 0,
        ensures
            r.1 == closest_index(views(colors@), self@),
            r.1 < colors@.len(),
            r.0 == colors@[r.1 as int],
            forall|j: int| 0 <= j < colors@.len() ==> score(self@, r.0@) <= score(self@, #[trigger] colors@[j]@),
            forall|j: int| 0 <= j < r.1 ==> score(self@, r.0@) < score(self@, #[trigger] colors@[j]@),
    {
        let ghost cs = views(colors@);
        let n = colors.len();
        let mut best: usize = 0;
        let mut best_score: u32 = self.distance_to(&colors[0]);
        let mut i: usize = 1;
        while i < n
            invariant
                n == colors@.len(),
                cs == views(colors@),
                1 <= i <= n,
                best == first_lowest(cs, self@, i as int),
                best < n,
                best_score == score(self@, cs[best as int]),
            decreases n - i,
        {
            let sc = self.distance_to(&colors[i]);
            if sc < best_score {
                best = i;
                best_score = sc;
            }
            i = i + 1;
        }
        proof {
            lemma_first_lowest(cs, self@, n as int);
            assert forall|j: int| 0 <= j < colors@.len() implies cs[j] == (#[trigger] colors@[j])@ by {}
        }
        (colors[best], best)
    }

    /// The squared distance in RGB space from this colour to `other`.
    fn distance_to(&self, other: &Color) -> (d: u32)
        ensures
            d == score(self@, other@),
    {
        let dr: i32 = other.r as i32 - self.r as i32;
        let dg: i32 = other.g as i32 - self.g as i32;
        let db: i32 = other.b as i32 - self.b as i32;
        assert(0 <= dr * dr <= 65025 && 0 <= dg * dg <= 65025 && 0 <= db * db <= 65025) by (nonlinear_arith)
            requires -255 <= dr <= 255, -255 <= dg <= 255, -255 <= db <= 255;
        (dr * dr + dg * dg + db * db) as u32
    }

    /// The escape sequence that selects this colour on a terminal with the
    /// given colour support; `None` when the terminal shows no colours.
    pub fn to_escape(&self, term_color_support: &TermColorSupport) -> (r: Option<String>)
        ensures
            r is Some <==> escape_sequence(self@, *term_color_support) is Some,
            r matches Some(s) ==> s@ == escape_sequence(self@, *term_color_support)->0,
            r is None <==> *term_color_support == TermColorSupport::NoColor,
            // True colour: the three channels in decimal, red, green, blue.
            *term_color_support == TermColorSupport::TrueColor ==> r->0@ == "\x1b[38;2;"@ + decimal(self@.0 as nat)
                + seq![';'] + decimal(self@.1 as nat) + seq![';'] + decimal(self@.2 as nat) + seq!['m'],
            // 256 colours: the index of a nearest palette entry, the first one.
            *term_color_support == TermColorSupport::Ansi256 ==> exists|k: int| #![trigger palette()[k]]
                0 <= k < 256 && r->0@ == "\x1b[38;5;"@ + decimal(k as nat) + seq!['m']
                && (forall|j: int| 0 <= j < 256 ==> score(self@, palette()[k]) <= score(self@, #[trigger] palette()[j]))
                && (forall|j: int| 0 <= j < k ==> score(self@, palette()[k]) < score(self@, #[trigger] palette()[j])),
            // 16 colours: `3k` for a nearest standard colour k, `9(k - 8)` for a bright one.
            *term_color_support == TermColorSupport::Ansi16 ==> exists|k: int| #![trigger palette()[k]]
                0 <= k < 16 && r->0@ == "\x1b["@ + (if k < 8 { seq!['3'] + decimal(k as nat) } else { seq!['9'] + decimal((k - 8) as nat) }) + seq!['m']
                && (forall|j: int| 0 <= j < 16 ==> score(self@, palette()[k]) <= score(self@, #[trigger] palette()[j]))
                && (forall|j: int| 0 <= j < k ==> score(self@, palette()[k]) < score(self@, #[trigger] palette()[j])),
    {
        proof {
            lemma_first_lowest(palette(), self@, 256);
            assert(decimal(3) == seq!['3']);
            assert(decimal(9) == seq!['9']);
        }
        match term_color_support {
            TermColorSupport::TrueColor => {
                let mut s = String::new();
                s.append("\x1b[38;2;");
                push_decimal(&mut s, self.r as usize);
                s.push(';');
                push_decimal(&mut s, self.g as usize);
                s.push(';');
                push_decimal(&mut s, self.b as usize);
                s.push('m');
                Some(s)
            },
            TermColorSupport::Ansi256 => {
                let colors = term_colors();
                assert(views(colors@) =~= palette());
                let c_index = self.closest_color(colors.as_slice()).1;
                let mut s = String::new();
                s.append("\x1b[38;5;");
                push_decimal(&mut s, c_index);
                s.push('m');
                Some(s)
            },
            TermColorSupport::Ansi16 => {
                let colors = term_colors();
                let system = vstd::slice::slice_subrange(colors.as_slice(), 0, 16);
                assert(views(system@) =~= palette().take(16));
                let c_index = self.closest_color(system).1;
                let mut s = String::new();
                s.append("\x1b[");
                if c_index < 8 {
                    push_decimal(&mut s, 3);
                    push_decimal(&mut s, c_index);
                } else {
                    push_decimal(&mut s, 9);
                    push_decimal(&mut s, c_index - 8);
                }
                s.push('m');
                proof {
                    let k = c_index as int;
                    assert(k == closest_index(palette().take(16), self@));
                    assert(s@ == "\x1b["@ + (if k < 8 { seq!['3'] + decimal(k as nat) } else { seq!['9'] + decimal((k - 8) as nat) }) + seq!['m']);
                    let t = palette().take(16);
                    lemma_first_lowest(t, self@, 16);
                    assert(closest_index(t, self@) == first_lowest(t, self@, 16));
                    assert forall|j: int| 0 <= j < 16 implies score(self@, palette()[k]) <= score(self@, #[trigger] palette()[j]) by {
                        assert(t[j] == palette()[j]);
                        assert(score(self@, t[k]) <= score(self@, t[j]));
                    }
                    assert forall|j: int| 0 <= j < k implies score(self@, palette()[k]) < score(self@, #[trigger] palette()[j]) by {
                        assert(t[j] == palette()[j]);
                        assert(score(self@, t[k]) < score(self@, t[j]));
                    }
                }
                Some(s)
            },
            TermColorSupport::NoColor => None,
        }
    }
}

} // verus!
