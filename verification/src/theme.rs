//! Colours: the palette of the launcher and the reading of a colour from its
//! hexadecimal form.

use crate::text::chars_of;
use crate::text::find;
use crate::text::find_char;
use crate::text::range_is;
use crate::text::string_of;
use crate::text::trim_range;
use crate::text::trimmed;
use vstd::prelude::*;

verus! {

/// The value of a hexadecimal digit, in either case.
pub open spec fn hex_digit(c: char) -> Option<u8> {
    if '0' <= c <= '9' {
        Some((c as u32 - '0' as u32) as u8)
    } else if 'a' <= c <= 'f' {
        Some((c as u32 - 'a' as u32 + 10) as u8)
    } else if 'A' <= c <= 'F' {
        Some((c as u32 - 'A' as u32 + 10) as u8)
    } else {
        None
    }
}

/// The byte that two characters stand for: two hexadecimal digits, or a plus sign
/// and one digit.
pub open spec fn hex_pair(hi: char, lo: char) -> Option<u8> {
    if hi == '+' {
        hex_digit(lo)
    } else if hex_digit(hi) is Some && hex_digit(lo) is Some {
        Some((hex_digit(hi)->0 * 16 + hex_digit(lo)->0) as u8)
    } else {
        None
    }
}

/// The colour that a text stands for: after at most one leading `#`, exactly six
/// characters, which give red, green and blue two by two.
pub open spec fn hex_color(s: Seq<char>) -> Option<[u8; 3]> {
    let body = if s.len() > 0 && s[0] == '#' {
        s.drop_first()
    } else {
        s
    };
    if body.len() == 6 && hex_pair(body[0], body[1]) is Some && hex_pair(body[2], body[3]) is Some
        && hex_pair(body[4], body[5]) is Some {
        Some(
            [
                hex_pair(body[0], body[1])->0,
                hex_pair(body[2], body[3])->0,
                hex_pair(body[4], body[5])->0,
            ],
        )
    } else {
        None
    }
}

fn digit(c: char) -> (v: Option<u8>)
    ensures
        v == hex_digit(c),
{
    let n: u32 = c as u32;
    if 48 <= n && n <= 57 {
        Some((n - 48) as u8)
    } else if 97 <= n && n <= 102 {
        Some((n - 97 + 10) as u8)
    } else if 65 <= n && n <= 70 {
        Some((n - 65 + 10) as u8)
    } else {
        None
    }
}

fn pair(hi: char, lo: char) -> (v: Option<u8>)
    ensures
        v == hex_pair(hi, lo),
{
    if hi == '+' {
        return digit(lo);
    }
    match (digit(hi), digit(lo)) {
        (Some(h), Some(l)) => Some(h * 16 + l),
        _ => None,
    }
}

/// Reads a colour from its hexadecimal form, with or without a leading `#`.
pub fn parse_hex(s: &str) -> (color: Option<[u8; 3]>)
    ensures
        color == hex_color(s@),
{
    let chars = chars_of(s);
    let from: usize = if chars.len() > 0 && chars[0] == '#' { 1 } else { 0 };
    if chars.len() - from != 6 {
        return None;
    }
    let ghost body = if s@.len() > 0 && s@[0] == '#' {
        s@.drop_first()
    } else {
        s@
    };
    assert(forall|i: int| 0 <= i < 6 ==> body[i] == chars@[from + i]);
    let r = pair(chars[from], chars[from + 1]);
    let g = pair(chars[from + 2], chars[from + 3]);
    let b = pair(chars[from + 4], chars[from + 5]);
    match (r, g, b) {
        (Some(r), Some(g), Some(b)) => Some([r, g, b]),
        _ => None,
    }
}

/// The palette of the launcher.
#[derive(Clone, Copy, Debug)]
pub struct Colors {
    pub background: [u8; 3],
    pub background_alpha: u8,
    pub border: [u8; 3],
    pub bar_bg: [u8; 3],
    pub bar_border: [u8; 3],
    pub text: [u8; 3],
    pub text_comment: [u8; 3],
    pub text_placeholder: [u8; 3],
    pub selection: [u8; 3],
    pub selection_alpha: u8,
}

impl Colors {
    /// The palette that is used where none is configured.
    pub fn standard() -> (c: Colors)
        ensures
            c.background_alpha == 0xff,
            c.selection_alpha == 0xcc,
            c.background@ == seq![0x1au8, 0x1au8, 0x2eu8],
            c.border@ == seq![0x4au8, 0x4au8, 0x6eu8],
            c.bar_bg@ == seq![0x2au8, 0x2au8, 0x4eu8],
            c.bar_border@ == seq![0x4au8, 0x4au8, 0x6eu8],
            c.text@ == seq![0xe0u8, 0xe0u8, 0xe0u8],
            c.text_comment@ == seq![0x80u8, 0x80u8, 0x90u8],
            c.text_placeholder@ == seq![0x60u8, 0x60u8, 0x70u8],
            c.selection@ == seq![0x40u8, 0x40u8, 0x90u8],
    {
        let c = Colors {
            background: [0x1a, 0x1a, 0x2e],
            background_alpha: 0xff,
            border: [0x4a, 0x4a, 0x6e],
            bar_bg: [0x2a, 0x2a, 0x4e],
            bar_border: [0x4a, 0x4a, 0x6e],
            text: [0xe0, 0xe0, 0xe0],
            text_comment: [0x80, 0x80, 0x90],
            text_placeholder: [0x60, 0x60, 0x70],
            selection: [0x40, 0x40, 0x90],
            selection_alpha: 0xcc,
        };
        assert(c.background@ =~= seq![0x1au8, 0x1au8, 0x2eu8]);
        assert(c.border@ =~= seq![0x4au8, 0x4au8, 0x6eu8]);
        assert(c.bar_bg@ =~= seq![0x2au8, 0x2au8, 0x4eu8]);
        assert(c.bar_border@ =~= seq![0x4au8, 0x4au8, 0x6eu8]);
        assert(c.text@ =~= seq![0xe0u8, 0xe0u8, 0xe0u8]);
        assert(c.text_comment@ =~= seq![0x80u8, 0x80u8, 0x90u8]);
        assert(c.text_placeholder@ =~= seq![0x60u8, 0x60u8, 0x70u8]);
        assert(c.selection@ =~= seq![0x40u8, 0x40u8, 0x90u8]);
        c
    }
}

impl Default for Colors {
    fn default() -> (c: Colors)
        ensures
            c.background_alpha == 0xff,
            c.selection_alpha == 0xcc,
            c.background@ == seq![0x1au8, 0x1au8, 0x2eu8],
            c.border@ == seq![0x4au8, 0x4au8, 0x6eu8],
            c.bar_bg@ == seq![0x2au8, 0x2au8, 0x4eu8],
            c.bar_border@ == seq![0x4au8, 0x4au8, 0x6eu8],
            c.text@ == seq![0xe0u8, 0xe0u8, 0xe0u8],
            c.text_comment@ == seq![0x80u8, 0x80u8, 0x90u8],
            c.text_placeholder@ == seq![0x60u8, 0x60u8, 0x70u8],
            c.selection@ == seq![0x40u8, 0x40u8, 0x90u8],
    {
        Colors::standard()
    }
}

/// What a colour file says: the palette, and what it gives for the two
/// opacities, in the order of its lines.
pub struct ColorFile {
    pub colors: Colors,
    /// Every value of `background_opacity`, as written.
    pub background_opacity: Vec<String>,
    /// Every value of `selection_opacity`, as written.
    pub selection_opacity: Vec<String>,
}

/// A colour file with its strings as sequences.
pub struct ColorFileView {
    pub colors: Colors,
    pub background_opacity: Seq<Seq<char>>,
    pub selection_opacity: Seq<Seq<char>>,
}

/// The strings as sequences.
pub open spec fn strings_view(strings: Seq<String>) -> Seq<Seq<char>> {
    Seq::new(strings.len(), |i: int| strings[i]@)
}

impl View for ColorFile {
    type V = ColorFileView;

    open spec fn view(&self) -> ColorFileView {
        ColorFileView {
            colors: self.colors,
            background_opacity: strings_view(self.background_opacity@),
            selection_opacity: strings_view(self.selection_opacity@),
        }
    }
}

/// The palette with the colour `c` under the name `key`; a name that is not
/// known changes nothing.
pub open spec fn with_color(colors: Colors, key: Seq<char>, c: [u8; 3]) -> Colors {
    if key == "background"@ {
        Colors { background: c, ..colors }
    } else if key == "border"@ {
        Colors { border: c, ..colors }
    } else if key == "bar_bg"@ {
        Colors { bar_bg: c, ..colors }
    } else if key == "bar_border"@ {
        Colors { bar_border: c, ..colors }
    } else if key == "text"@ {
        Colors { text: c, ..colors }
    } else if key == "text_comment"@ {
        Colors { text_comment: c, ..colors }
    } else if key == "text_placeholder"@ {
        Colors { text_placeholder: c, ..colors }
    } else if key == "selection"@ {
        Colors { selection: c, ..colors }
    } else {
        colors
    }
}

/// What is known after one more line: a line `key=value` notes the value of an
/// opacity, or sets the colour that the value stands for; any other line changes
/// nothing.
pub open spec fn line_read(f: ColorFileView, line: Seq<char>) -> ColorFileView {
    let at = find(line, '=');
    if at >= line.len() {
        f
    } else {
        let key = trimmed(line.take(at));
        let val = trimmed(line.skip(at + 1));
        if key == "background_opacity"@ {
            ColorFileView { background_opacity: f.background_opacity.push(val), ..f }
        } else if key == "selection_opacity"@ {
            ColorFileView { selection_opacity: f.selection_opacity.push(val), ..f }
        } else {
            match hex_color(val) {
                Some(c) => ColorFileView { colors: with_color(f.colors, key, c), ..f },
                None => f,
            }
        }
    }
}

/// What is known after all lines of `text`, which are parted at line feeds.
pub open spec fn file_read(f: ColorFileView, text: Seq<char>) -> ColorFileView
    decreases text.len(),
{
    if text.len() == 0 {
        f
    } else {
        let end = find(text, '\n');
        let next = line_read(f, text.take(end));
        if 0 <= end < text.len() {
            file_read(next, text.skip(end + 1))
        } else {
            next
        }
    }
}

fn set_color(colors: &mut Colors, chars: &Vec<char>, ka: usize, kb: usize, c: [u8; 3])
    requires
        ka <= kb <= chars@.len(),
    ensures
        *final(colors) == with_color(*old(colors), chars@.subrange(ka as int, kb as int), c),
{
    if range_is(chars, ka, kb, "background") {
        colors.background = c;
    } else if range_is(chars, ka, kb, "border") {
        colors.border = c;
    } else if range_is(chars, ka, kb, "bar_bg") {
        colors.bar_bg = c;
    } else if range_is(chars, ka, kb, "bar_border") {
        colors.bar_border = c;
    } else if range_is(chars, ka, kb, "text") {
        colors.text = c;
    } else if range_is(chars, ka, kb, "text_comment") {
        colors.text_comment = c;
    } else if range_is(chars, ka, kb, "text_placeholder") {
        colors.text_placeholder = c;
    } else if range_is(chars, ka, kb, "selection") {
        colors.selection = c;
    }
}

fn read_line(file: &mut ColorFile, chars: &Vec<char>, a: usize, b: usize)
    requires
        a <= b <= chars@.len(),
    ensures
        final(file)@ == line_read(old(file)@, chars@.subrange(a as int, b as int)),
{
    let ghost line = chars@.subrange(a as int, b as int);
    let at = find_char(chars, a, b, '=');
    if at >= b {
        return ;
    }
    assert(line.take(at - a) == chars@.subrange(a as int, at as int));
    assert(line.skip(at - a + 1) == chars@.subrange(at + 1, b as int));
    let (ka, kb) = trim_range(chars, a, at);
    let (va, vb) = trim_range(chars, at + 1, b);
    if range_is(chars, ka, kb, "background_opacity") {
        let val = string_of(chars.as_slice(), va, vb);
        assert(strings_view(file.background_opacity@.push(val)) =~= strings_view(
            file.background_opacity@,
        ).push(val@));
        file.background_opacity.push(val);
    } else if range_is(chars, ka, kb, "selection_opacity") {
        let val = string_of(chars.as_slice(), va, vb);
        assert(strings_view(file.selection_opacity@.push(val)) =~= strings_view(
            file.selection_opacity@,
        ).push(val@));
        file.selection_opacity.push(val);
    } else {
        let val = string_of(chars.as_slice(), va, vb);
        match parse_hex(val.as_str()) {
            Some(c) => {
                set_color(&mut file.colors, chars, ka, kb, c);
            },
            None => {},
        }
    }
}

/// Reads the text of a colour file over the palette `base`: every line
/// `name=colour` sets the colour of that name, and the values of the two
/// opacities are handed out as they are written.
pub fn load_colors(content: &str, base: Colors) -> (file: ColorFile)
    ensures
        file@ == file_read(
            ColorFileView {
                colors: base,
                background_opacity: Seq::empty(),
                selection_opacity: Seq::empty(),
            },
            content@,
        ),
{
    let chars = chars_of(content);
    let mut file = ColorFile {
        colors: base,
        background_opacity: Vec::new(),
        selection_opacity: Vec::new(),
    };
    let ghost start = file@;
    assert(start.background_opacity =~= Seq::<Seq<char>>::empty());
    assert(start.selection_opacity =~= Seq::<Seq<char>>::empty());
    let mut pos: usize = 0;
    assert(chars@.skip(0) == chars@);
    while pos < chars.len()
        invariant
            pos <= chars.len(),
            chars@ == content@,
            file_read(start, content@) == file_read(file@, chars@.skip(pos as int)),
        decreases chars.len() - pos,
    {
        let ghost rest = chars@.skip(pos as int);
        let end = find_char(&chars, pos, chars.len(), '\n');
        assert(chars@.subrange(pos as int, chars@.len() as int) == rest);
        assert(rest.take(end - pos) == chars@.subrange(pos as int, end as int));
        read_line(&mut file, &chars, pos, end);
        if end >= chars.len() {
            pos = chars.len();
            assert(file_read(file@, chars@.skip(pos as int)) == file@);
        } else {
            assert(rest.skip(end - pos + 1) == chars@.skip(end + 1));
            pos = end + 1;
        }
    }
    file
}

} // verus!
