//! The item index: reading desktop entries and gathering the items.
//!
//! A desktop entry is a text of lines. A line in square brackets opens a section,
//! and only the first `[Desktop Entry]` section is read. In it, a line `key=value`
//! sets a field. Entries that are hidden, that are not to be displayed, that are
//! not applications, or that lack a name or a command give no item.

use crate::frecency::FrecencyMap;
use crate::items::Item;
use crate::ranking::order;
use crate::ranking::ranked;
use crate::text::chars_of;
use crate::text::find;
use crate::text::find_char;
use crate::text::range_is;
use crate::text::string_of;
use crate::text::trim_range;
use crate::text::trimmed;
use vstd::prelude::*;

verus! {

/// Whether `c` is one of the codes that stand behind `%` in a command for what
/// the caller fills in.
pub open spec fn is_field_code(c: char) -> bool {
    c == 'f' || c == 'F' || c == 'u' || c == 'U' || c == 'd' || c == 'D' || c == 'n' || c == 'N'
        || c == 'i' || c == 'c' || c == 'k' || c == 'v' || c == 'm'
}

/// `s` without its field codes: every `%` that a field code follows is left out
/// together with the code. Any other character stays, a `%` before anything else
/// too.
pub open spec fn stripped(s: Seq<char>) -> Seq<char>
    decreases s.len(),
{
    if s.len() == 0 {
        Seq::empty()
    } else if s[0] == '%' && s.len() >= 2 && is_field_code(s[1]) {
        stripped(s.skip(2))
    } else {
        seq![s[0]] + stripped(s.drop_first())
    }
}

/// Whether `v` is the word `true` in any mix of upper and lower case.
pub open spec fn is_true_word(v: Seq<char>) -> bool {
    &&& v.len() == 4
    &&& (v[0] == 't' || v[0] == 'T')
    &&& (v[1] == 'r' || v[1] == 'R')
    &&& (v[2] == 'u' || v[2] == 'U')
    &&& (v[3] == 'e' || v[3] == 'E')
}

/// What has been read of a desktop entry.
pub struct Fields {
    /// Whether the `[Desktop Entry]` section has begun.
    pub in_entry: bool,
    /// Whether the section has ended: nothing more is read.
    pub closed: bool,
    /// Whether the entry said that it is no application.
    pub rejected: bool,
    pub name: Option<Seq<char>>,
    pub command: Option<Seq<char>>,
    pub comment: Seq<char>,
    pub icon: Seq<char>,
    pub terminal: bool,
    pub no_display: bool,
    pub hidden: bool,
}

/// A desktop entry that gives an item.
pub struct DesktopEntry {
    pub name: String,
    /// The command, without field codes.
    pub command: String,
    pub comment: String,
    /// Name or path of the icon; empty where the entry names none.
    pub icon: String,
    pub terminal: bool,
}

/// A desktop entry with its strings as sequences.
pub struct EntryView {
    pub name: Seq<char>,
    pub command: Seq<char>,
    pub comment: Seq<char>,
    pub icon: Seq<char>,
    pub terminal: bool,
}

impl View for DesktopEntry {
    type V = EntryView;

    open spec fn view(&self) -> EntryView {
        EntryView {
            name: self.name@,
            command: self.command@,
            comment: self.comment@,
            icon: self.icon@,
            terminal: self.terminal,
        }
    }
}

/// Nothing read yet.
pub open spec fn blank() -> Fields {
    Fields {
        in_entry: false,
        closed: false,
        rejected: false,
        name: None,
        command: None,
        comment: Seq::empty(),
        icon: Seq::empty(),
        terminal: false,
        no_display: false,
        hidden: false,
    }
}

/// The fields after `key=value` was read, both trimmed. A key that is not known
/// sets nothing; a type other than `Application` rejects the entry.
pub open spec fn assigned(f: Fields, key: Seq<char>, val: Seq<char>) -> Fields {
    if key == "Name"@ {
        Fields { name: Some(val), ..f }
    } else if key == "Exec"@ {
        Fields { command: Some(trimmed(stripped(val))), ..f }
    } else if key == "Comment"@ {
        Fields { comment: val, ..f }
    } else if key == "Icon"@ {
        Fields { icon: val, ..f }
    } else if key == "Terminal"@ {
        Fields { terminal: is_true_word(val), ..f }
    } else if key == "NoDisplay"@ {
        Fields { no_display: is_true_word(val), ..f }
    } else if key == "Hidden"@ {
        Fields { hidden: is_true_word(val), ..f }
    } else if key == "Type"@ {
        if val == "Application"@ {
            f
        } else {
            Fields { rejected: true, ..f }
        }
    } else {
        f
    }
}

/// The fields after one more line, which is trimmed. A section header ends the
/// entry section if that has begun, and begins it if it is its header. Other
/// lines count only inside the section, and only where they hold a `=`.
pub open spec fn absorbed(f: Fields, line: Seq<char>) -> Fields {
    if f.closed || f.rejected {
        f
    } else if line.len() > 0 && line[0] == '[' {
        if f.in_entry {
            Fields { closed: true, ..f }
        } else if line == "[Desktop Entry]"@ {
            Fields { in_entry: true, ..f }
        } else {
            f
        }
    } else if !f.in_entry {
        f
    } else {
        let at = find(line, '=');
        if at >= line.len() {
            f
        } else {
            assigned(f, trimmed(line.take(at)), trimmed(line.skip(at + 1)))
        }
    }
}

/// The fields after all lines of `text`, which are parted at line feeds.
pub open spec fn scanned(f: Fields, text: Seq<char>) -> Fields
    decreases text.len(),
{
    if text.len() == 0 {
        f
    } else {
        let end = find(text, '\n');
        let next = absorbed(f, trimmed(text.take(end)));
        if 0 <= end < text.len() {
            scanned(next, text.skip(end + 1))
        } else {
            next
        }
    }
}

/// The entry that the fields give, if they give one.
pub open spec fn entry_of(f: Fields) -> Option<EntryView> {
    if f.rejected || f.no_display || f.hidden || f.name is None || f.command is None {
        None
    } else {
        Some(
            EntryView {
                name: f.name->0,
                command: f.command->0,
                comment: f.comment,
                icon: f.icon,
                terminal: f.terminal,
            },
        )
    }
}

/// The entry that the text of a desktop file gives, if it gives one.
pub open spec fn parsed(text: Seq<char>) -> Option<EntryView> {
    entry_of(scanned(blank(), text))
}

/// Whether `chars[from..to]` is the word `true` in any mix of case.
fn range_is_true(chars: &Vec<char>, from: usize, to: usize) -> (yes: bool)
    requires
        from <= to <= chars@.len(),
    ensures
        yes == is_true_word(chars@.subrange(from as int, to as int)),
{
    if to - from != 4 {
        return false;
    }
    let c0 = chars[from];
    let c1 = chars[from + 1];
    let c2 = chars[from + 2];
    let c3 = chars[from + 3];
    (c0 == 't' || c0 == 'T') && (c1 == 'r' || c1 == 'R') && (c2 == 'u' || c2 == 'U') && (c3 == 'e'
        || c3 == 'E')
}

/// Whether `c` is a field code.
fn field_code(c: char) -> (yes: bool)
    ensures
        yes == is_field_code(c),
{
    c == 'f' || c == 'F' || c == 'u' || c == 'U' || c == 'd' || c == 'D' || c == 'n' || c == 'N'
        || c == 'i' || c == 'c' || c == 'k' || c == 'v' || c == 'm'
}

/// The characters `chars[from..to]` without their field codes.
fn strip_range(chars: &Vec<char>, from: usize, to: usize) -> (out: Vec<char>)
    requires
        from <= to <= chars@.len(),
    ensures
        out@ == stripped(chars@.subrange(from as int, to as int)),
{
    let mut out: Vec<char> = Vec::new();
    let mut i: usize = from;
    assert(Seq::<char>::empty() + stripped(chars@.subrange(from as int, to as int)) == stripped(
        chars@.subrange(from as int, to as int),
    ));
    while i < to
        invariant
            from <= i <= to <= chars@.len(),
            stripped(chars@.subrange(from as int, to as int)) == out@ + stripped(
                chars@.subrange(i as int, to as int),
            ),
        decreases to - i,
    {
        let ghost rest = chars@.subrange(i as int, to as int);
        let c = chars[i];
        if c == '%' && i + 1 < to && field_code(chars[i + 1]) {
            assert(rest.skip(2) == chars@.subrange(i + 2, to as int));
            i += 2;
        } else {
            assert(rest.drop_first() == chars@.subrange(i + 1, to as int));
            assert(out@.push(c) + stripped(rest.drop_first()) == out@ + (seq![c] + stripped(
                rest.drop_first(),
            )));
            out.push(c);
            i += 1;
        }
    }
    assert(out@ + Seq::<char>::empty() == out@);
    out
}

/// The command without its field codes and without the whitespace around what is
/// left.
pub fn strip_field_codes(command: &str) -> (out: String)
    ensures
        out@ == trimmed(stripped(command@)),
{
    let chars = chars_of(command);
    assert(chars@.subrange(0, chars@.len() as int) == chars@);
    let bare = strip_range(&chars, 0, chars.len());
    assert(bare@.subrange(0, bare@.len() as int) == bare@);
    let (a, b) = trim_range(&bare, 0, bare.len());
    string_of(bare.as_slice(), a, b)
}

/// What has been read of a desktop entry, as it is held while reading.
struct Scan {
    in_entry: bool,
    closed: bool,
    rejected: bool,
    name: Option<String>,
    command: Option<String>,
    comment: String,
    icon: String,
    terminal: bool,
    no_display: bool,
    hidden: bool,
}

impl Scan {
    /// What has been read, with its strings as sequences.
    spec fn fields(self) -> Fields {
        Fields {
            in_entry: self.in_entry,
            closed: self.closed,
            rejected: self.rejected,
            name: match self.name {
                Some(s) => Some(s@),
                None => None,
            },
            command: match self.command {
                Some(s) => Some(s@),
                None => None,
            },
            comment: self.comment@,
            icon: self.icon@,
            terminal: self.terminal,
            no_display: self.no_display,
            hidden: self.hidden,
        }
    }
}

/// Reads `key=value`, where the key is `chars[ka..kb]` and the value is
/// `chars[va..vb]`.
fn assign(scan: &mut Scan, chars: &Vec<char>, ka: usize, kb: usize, va: usize, vb: usize)
    requires
        ka <= kb <= chars@.len(),
        va <= vb <= chars@.len(),
    ensures
        final(scan).fields() == assigned(
            old(scan).fields(),
            chars@.subrange(ka as int, kb as int),
            chars@.subrange(va as int, vb as int),
        ),
{
    if range_is(chars, ka, kb, "Name") {
        scan.name = Some(string_of(chars.as_slice(), va, vb));
    } else if range_is(chars, ka, kb, "Exec") {
        let bare = strip_range(chars, va, vb);
        assert(bare@.subrange(0, bare@.len() as int) == bare@);
        let (a, b) = trim_range(&bare, 0, bare.len());
        scan.command = Some(string_of(bare.as_slice(), a, b));
    } else if range_is(chars, ka, kb, "Comment") {
        scan.comment = string_of(chars.as_slice(), va, vb);
    } else if range_is(chars, ka, kb, "Icon") {
        scan.icon = string_of(chars.as_slice(), va, vb);
    } else if range_is(chars, ka, kb, "Terminal") {
        scan.terminal = range_is_true(chars, va, vb);
    } else if range_is(chars, ka, kb, "NoDisplay") {
        scan.no_display = range_is_true(chars, va, vb);
    } else if range_is(chars, ka, kb, "Hidden") {
        scan.hidden = range_is_true(chars, va, vb);
    } else if range_is(chars, ka, kb, "Type") {
        if !range_is(chars, va, vb, "Application") {
            scan.rejected = true;
        }
    }
}

/// Reads the trimmed line `chars[a..b]`.
fn absorb(scan: &mut Scan, chars: &Vec<char>, a: usize, b: usize)
    requires
        a <= b <= chars@.len(),
    ensures
        final(scan).fields() == absorbed(old(scan).fields(), chars@.subrange(a as int, b as int)),
{
    let ghost line = chars@.subrange(a as int, b as int);
    if scan.closed || scan.rejected {
        return ;
    }
    if a < b && chars[a] == '[' {
        if scan.in_entry {
            scan.closed = true;
        } else if range_is(chars, a, b, "[Desktop Entry]") {
            scan.in_entry = true;
        }
        return ;
    }
    if !scan.in_entry {
        return ;
    }
    let at = find_char(chars, a, b, '=');
    if at >= b {
        return ;
    }
    assert(line.take(at - a) == chars@.subrange(a as int, at as int));
    assert(line.skip(at - a + 1) == chars@.subrange(at + 1, b as int));
    let (ka, kb) = trim_range(chars, a, at);
    let (va, vb) = trim_range(chars, at + 1, b);
    assign(scan, chars, ka, kb, va, vb);
}

/// Reads the text of a desktop file. Gives the entry, or `None` where the text
/// gives no item: it is hidden or not to be displayed, it is no application, or
/// it lacks a name or a command.
pub fn parse_desktop_file(content: &str) -> (entry: Option<DesktopEntry>)
    ensures
        match entry {
            Some(e) => parsed(content@) == Some(e@),
            None => parsed(content@) is None,
        },
{
    let chars = chars_of(content);
    let mut scan = Scan {
        in_entry: false,
        closed: false,
        rejected: false,
        name: None,
        command: None,
        comment: String::new(),
        icon: String::new(),
        terminal: false,
        no_display: false,
        hidden: false,
    };
    let mut pos: usize = 0;
    assert(chars@.skip(0) == chars@);
    while pos < chars.len()
        invariant
            pos <= chars.len(),
            chars@ == content@,
            scanned(blank(), content@) == scanned(scan.fields(), chars@.skip(pos as int)),
        decreases chars.len() - pos,
    {
        let ghost rest = chars@.skip(pos as int);
        let end = find_char(&chars, pos, chars.len(), '\n');
        assert(chars@.subrange(pos as int, chars@.len() as int) == rest);
        assert(rest.take(end - pos) == chars@.subrange(pos as int, end as int));
        let (a, b) = trim_range(&chars, pos, end);
        absorb(&mut scan, &chars, a, b);
        if end >= chars.len() {
            pos = chars.len();
            assert(scanned(scan.fields(), chars@.skip(pos as int)) == scan.fields());
        } else {
            assert(rest.skip(end - pos + 1) == chars@.skip(end + 1));
            pos = end + 1;
        }
    }
    if scan.rejected || scan.no_display || scan.hidden {
        return None;
    }
    match (scan.name, scan.command) {
        (Some(name), Some(command)) => Some(
            DesktopEntry {
                name,
                command,
                comment: scan.comment,
                icon: scan.icon,
                terminal: scan.terminal,
            },
        ),
        _ => None,
    }
}

/// An item as it was found, with the name of the file that it came from.
pub struct Candidate {
    /// Name of the file, by which a later file overrides an earlier one.
    pub filename: String,
    pub item: Item,
}

/// Items gathered so far, with the file name of each.
pub struct Gathered {
    pub names: Seq<Seq<char>>,
    pub items: Seq<Item>,
}

/// Index of the first name equal to `name`, or the number of names where there is
/// none.
pub open spec fn index_of(names: Seq<Seq<char>>, name: Seq<char>) -> int
    decreases names.len(),
{
    if names.len() == 0 || names[0] == name {
        0
    } else {
        1 + index_of(names.drop_first(), name)
    }
}

/// The items that the candidates give, in the order in which their file names
/// were first seen: a candidate whose file name was seen before takes the place
/// of the item that was there.
pub open spec fn gathered(found: Seq<Candidate>) -> Gathered
    decreases found.len(),
{
    if found.len() == 0 {
        Gathered { names: Seq::empty(), items: Seq::empty() }
    } else {
        let before = gathered(found.drop_last());
        let c = found.last();
        let at = index_of(before.names, c.filename@);
        if at < before.names.len() {
            Gathered { names: before.names, items: before.items.update(at, c.item) }
        } else {
            Gathered { names: before.names.push(c.filename@), items: before.items.push(c.item) }
        }
    }
}

/// There is a file name for every gathered item.
pub proof fn lemma_gathered_len(found: Seq<Candidate>)
    ensures
        gathered(found).names.len() == gathered(found).items.len(),
        gathered(found).items.len() <= found.len(),
    decreases found.len(),
{
    if found.len() > 0 {
        lemma_gathered_len(found.drop_last());
        lemma_index_of_bounds(gathered(found.drop_last()).names, found.last().filename@);
    }
}

proof fn lemma_index_of_bounds(names: Seq<Seq<char>>, name: Seq<char>)
    ensures
        0 <= index_of(names, name) <= names.len(),
    decreases names.len(),
{
    if names.len() > 0 && names[0] != name {
        lemma_index_of_bounds(names.drop_first(), name);
    }
}

proof fn lemma_index_of_is(names: Seq<Seq<char>>, name: Seq<char>, at: int)
    requires
        0 <= at <= names.len(),
        forall|j: int| 0 <= j < at ==> names[j] != name,
        at == names.len() || names[at] == name,
    ensures
        index_of(names, name) == at,
    decreases names.len(),
{
    if at > 0 {
        assert(names[0] != name);
        assert forall|j: int| 0 <= j < at - 1 implies names.drop_first()[j] != name by {
            assert(names.drop_first()[j] == names[j + 1]);
        }
        lemma_index_of_is(names.drop_first(), name, at - 1);
    }
}

/// The names of the files as sequences.
pub open spec fn names_view(names: Seq<String>) -> Seq<Seq<char>> {
    Seq::new(names.len(), |i: int| names[i]@)
}

/// Gathers the candidates into items: one for every file name, at the place where
/// the name was first seen, with the content of the candidate that came last.
pub fn gather(found: Vec<Candidate>) -> (items: Vec<Item>)
    ensures
        items@ == gathered(found@).items,
{
    let ghost all = found@;
    let mut rest = found;
    let mut names: Vec<String> = Vec::new();
    let mut items: Vec<Item> = Vec::new();
    let mut done: usize = 0;
    let total = rest.len();
    assert(all.take(0) == Seq::<Candidate>::empty());
    assert(all.skip(0) == all);
    assert(names_view(names@) =~= Seq::<Seq<char>>::empty());
    while done < total
        invariant
            done <= total,
            total == all.len(),
            rest@ == all.skip(done as int),
            names_view(names@) == gathered(all.take(done as int)).names,
            items@ == gathered(all.take(done as int)).items,
            names@.len() == items@.len(),
        decreases total - done,
    {
        let c = rest.remove(0);
        assert(c == all[done as int]);
        assert(rest@ == all.skip(done + 1));
        assert(all.take(done + 1).drop_last() == all.take(done as int));
        let mut at: usize = 0;
        while at < names.len() && names[at] != c.filename
            invariant
                at <= names@.len(),
                forall|j: int| 0 <= j < at ==> names_view(names@)[j] != c.filename@,
            decreases names@.len() - at,
        {
            at += 1;
        }
        proof {
            lemma_index_of_is(names_view(names@), c.filename@, at as int);
        }
        if at < names.len() {
            items.set(at, c.item);
        } else {
            assert(names_view(names@.push(c.filename)) =~= names_view(names@).push(c.filename@));
            names.push(c.filename);
            items.push(c.item);
        }
        done += 1;
    }
    assert(all.take(total as int) == all);
    items
}

/// Builds the item list of the launcher from the desktop entries that were found,
/// in the order in which they were found: gathers them by file name and puts them
/// in their default order at time `now`.
pub fn load_desktop_entries(found: Vec<Candidate>, frecency: &FrecencyMap, now: u64) -> (items: Vec<
    Item,
>)
    ensures
        items@ == ranked(gathered(found@).items, frecency@, now),
{
    order(gather(found), frecency, now)
}

/// The item that a line of input stands for: the line is its name and its
/// command, and it has nothing else.
pub open spec fn is_line_item(item: Item, line: Seq<char>) -> bool {
    &&& item.name@ == line
    &&& item.command@ == line
    &&& item.comment@ == Seq::<char>::empty()
    &&& item.icon_data is None
    &&& item.icon_w == 0
    &&& item.icon_h == 0
    &&& !item.terminal
    &&& item.desktop_id@ == Seq::<char>::empty()
}

/// Builds the item list of the launcher from lines of input, one item for each
/// line, in their order.
pub fn load_stdin_items(lines: Vec<String>) -> (items: Vec<Item>)
    ensures
        items@.len() == lines@.len(),
        forall|i: int| 0 <= i < lines@.len() ==> is_line_item(#[trigger] items@[i], lines@[i]@),
{
    let mut items: Vec<Item> = Vec::new();
    let mut i: usize = 0;
    while i < lines.len()
        invariant
            i <= lines.len(),
            items@.len() == i,
            forall|j: int| 0 <= j < i ==> is_line_item(#[trigger] items@[j], lines@[j]@),
        decreases lines.len() - i,
    {
        let line = lines[i].clone();
        items.push(
            Item {
                name: line.clone(),
                command: line,
                comment: String::new(),
                icon_data: None,
                icon_w: 0,
                icon_h: 0,
                terminal: false,
                desktop_id: String::new(),
            },
        );
        i += 1;
    }
    items
}

/// The path of an icon file: `dir`, the name of the icon, and `ext`.
pub open spec fn icon_path(dir: Seq<char>, name: Seq<char>, ext: Seq<char>) -> Seq<char> {
    dir + name + ext
}

/// Where the icon `name` is looked for, in this order. A name that begins with a
/// slash is a path and is looked for there alone. Any other name is looked for
/// among the icons of the `hicolor` theme, first as an image of 48, 64, 32, 128
/// and 256 pixels, then as a drawing, and last among the pixmaps, as an image and
/// as a drawing.
pub open spec fn icon_places(name: Seq<char>) -> Seq<Seq<char>> {
    if name.len() > 0 && name[0] == '/' {
        seq![name]
    } else {
        seq![
            icon_path("/usr/share/icons/hicolor/48x48/apps/"@, name, ".png"@),
            icon_path("/usr/share/icons/hicolor/64x64/apps/"@, name, ".png"@),
            icon_path("/usr/share/icons/hicolor/32x32/apps/"@, name, ".png"@),
            icon_path("/usr/share/icons/hicolor/128x128/apps/"@, name, ".png"@),
            icon_path("/usr/share/icons/hicolor/256x256/apps/"@, name, ".png"@),
            icon_path("/usr/share/icons/hicolor/scalable/apps/"@, name, ".svg"@),
            icon_path("/usr/share/pixmaps/"@, name, ".png"@),
            icon_path("/usr/share/pixmaps/"@, name, ".svg"@),
        ]
    }
}

fn place(dir: &str, name: &str, ext: &str) -> (path: String)
    ensures
        path@ == icon_path(dir@, name@, ext@),
{
    let mut path = String::new();
    path.append(dir);
    path.append(name);
    path.append(ext);
    assert(path@ =~= dir@ + name@ + ext@);
    path
}

/// The paths at which the icon `name` is looked for, in the order in which they
/// are tried.
pub fn icon_candidates(name: &str) -> (places: Vec<String>)
    ensures
        places@.len() == icon_places(name@).len(),
        forall|i: int| 0 <= i < places@.len() ==> (#[trigger] places@[i])@ == icon_places(name@)[i],
{
    let chars = chars_of(name);
    let mut places: Vec<String> = Vec::new();
    if chars.len() > 0 && chars[0] == '/' {
        places.push(name.to_owned());
        return places;
    }
    places.push(place("/usr/share/icons/hicolor/48x48/apps/", name, ".png"));
    places.push(place("/usr/share/icons/hicolor/64x64/apps/", name, ".png"));
    places.push(place("/usr/share/icons/hicolor/32x32/apps/", name, ".png"));
    places.push(place("/usr/share/icons/hicolor/128x128/apps/", name, ".png"));
    places.push(place("/usr/share/icons/hicolor/256x256/apps/", name, ".png"));
    places.push(place("/usr/share/icons/hicolor/scalable/apps/", name, ".svg"));
    places.push(place("/usr/share/pixmaps/", name, ".png"));
    places.push(place("/usr/share/pixmaps/", name, ".svg"));
    places
}

} // verus!
