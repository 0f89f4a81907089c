//! The declarative configuration: a list of shortcut entries, each a key
//! combination and a target (a filesystem path or a URL), read from a
//! structured text document.
//!
//! The document grammar is the small structured-text subset the
//! configuration uses: blank lines, full-line `#` comments, `[[hotkeys]]`
//! entry headers, and `key = "value"` lines with quoted strings (escapes
//! `\\` and `\"`). Reading and writing the file itself is the caller's
//! business; this module works on the document's bytes.
use vstd::prelude::*;
use vstd::slice::slice_subrange;
use vstd::string::*;

verus! {

/// One declarative entry: a key-combination string and a target string.
#[derive(Debug)]
pub struct ShortcutSpec {
    /// The key-combination string, e.g. `Ctrl+Shift+A`.
    pub combo: Vec<u8>,
    /// The target to open on a press: a filesystem path or a URL.
    pub target: Vec<u8>,
}

/// Mathematical image of a [`ShortcutSpec`].
pub struct SpecShortcut {
    pub combo: Seq<u8>,
    pub target: Seq<u8>,
}

impl View for ShortcutSpec {
    type V = SpecShortcut;

    open spec fn view(&self) -> SpecShortcut {
        SpecShortcut { combo: self.combo@, target: self.target@ }
    }
}

/// An ordered list of shortcut entries, re-created wholesale on every load.
#[derive(Debug)]
pub struct Configuration {
    pub hotkeys: Vec<ShortcutSpec>,
}

impl View for Configuration {
    type V = Seq<SpecShortcut>;

    open spec fn view(&self) -> Seq<SpecShortcut> {
        Seq::new(self.hotkeys@.len(), |i: int| self.hotkeys@[i]@)
    }
}

/// How a load can fail: the file could not be created or read, or the
/// document is not well-formed. A malformed document is one error for the
/// whole load; there is no partial parse.
#[derive(Clone, Copy, Debug, PartialEq, Eq, Structural)]
pub enum ConfigError {
    IoError,
    ParseError,
}

/// Location of the configuration file below the user's configuration
/// directory: `<base>/WindowsShortcuts/config.toml`.
pub fn config_path_for(base_dir: &[u8]) -> (r: Vec<u8>)
    ensures
        r@ == base_dir@ + ("/WindowsShortcuts/config.toml").spec_bytes(),
{
    let mut r: Vec<u8> = vstd::slice::slice_to_vec(base_dir);
    r.extend_from_slice("/WindowsShortcuts/config.toml".as_bytes());
    r
}

/// The document seeded when no configuration file exists yet: two example
/// entries, one opening an executable, one opening a URL.
pub open spec fn spec_default_config_text() -> Seq<u8> {
    (r#"
# Example hotkeys. Use Ctrl, Shift, Alt, Win as modifiers.
# Keys can be A-Z, 0-9, F1-F12.
# For file paths, it is recommended to use forward slashes (e.g., "C:/Users/YourUser/Documents/file.txt")
# or double backslashes (e.g., "C:\\Users\\YourUser\\Documents\\file.txt").

[[hotkeys]]
shortcut = "Ctrl+Shift+A"
path = "C:/Windows/System32/notepad.exe"

[[hotkeys]]
shortcut = "Ctrl+Shift+B"
path = "https://www.google.com"
"#).spec_bytes()
}

/// The default document as bytes, ready to be written to a fresh file.
pub fn default_config_text() -> (r: Vec<u8>)
    ensures
        r@ == spec_default_config_text(),
{
    let s: &str = r#"
# Example hotkeys. Use Ctrl, Shift, Alt, Win as modifiers.
# Keys can be A-Z, 0-9, F1-F12.
# For file paths, it is recommended to use forward slashes (e.g., "C:/Users/YourUser/Documents/file.txt")
# or double backslashes (e.g., "C:\\Users\\YourUser\\Documents\\file.txt").

[[hotkeys]]
shortcut = "Ctrl+Shift+A"
path = "C:/Windows/System32/notepad.exe"

[[hotkeys]]
shortcut = "Ctrl+Shift+B"
path = "https://www.google.com"
"#;
    s.as_bytes_vec()
}

/// The document to write before reading: a missing file is seeded with the
/// default document; an existing file is never overwritten, so a second
/// load finds the content the first one left.
pub fn seed_document(file_exists: bool) -> (r: Option<Vec<u8>>)
    ensures
        file_exists ==> r is None,
        !file_exists ==> (r matches Some(d) && d@ == spec_default_config_text()),
{
    if file_exists {
        None
    } else {
        Some(default_config_text())
    }
}

/// Whitespace inside a line: space, tab, and the carriage return that a
/// CRLF-saved file leaves at a line's end.
pub open spec fn is_ws(b: u8) -> bool {
    b == 32 || b == 9 || b == 13
}

pub open spec fn spec_skip_ws(s: Seq<u8>) -> Seq<u8>
    decreases s.len(),
{
    if s.len() > 0 && is_ws(s[0]) {
        spec_skip_ws(s.drop_first())
    } else {
        s
    }
}

pub open spec fn spec_trim_trailing_ws(s: Seq<u8>) -> Seq<u8>
    decreases s.len(),
{
    if s.len() > 0 && is_ws(s.last()) {
        spec_trim_trailing_ws(s.drop_last())
    } else {
        s
    }
}

/// A byte a bare key may consist of: a letter, a digit, `_` or `-`.
pub open spec fn is_key_byte(b: u8) -> bool {
    (65 <= b <= 90) || (97 <= b <= 122) || (48 <= b <= 57) || b == 95 || b == 45
}

/// How many leading bytes of `s` belong to a bare key.
pub open spec fn spec_key_len(s: Seq<u8>) -> int
    decreases s.len(),
{
    if s.len() > 0 && is_key_byte(s[0]) {
        1 + spec_key_len(s.drop_first())
    } else {
        0
    }
}

/// The body of a quoted string, read after its opening quote: the content
/// with the escapes `\\` and `\"` resolved, and what follows the closing
/// quote. `None` for an unterminated string or an unknown escape.
pub open spec fn spec_parse_quoted(s: Seq<u8>) -> Option<(Seq<u8>, Seq<u8>)>
    decreases s.len(),
{
    if s.len() == 0 {
        None
    } else if s[0] == 34 {
        Some((Seq::empty(), s.drop_first()))
    } else if s[0] == 92 {
        if s.len() >= 2 && (s[1] == 92 || s[1] == 34) {
            match spec_parse_quoted(s.skip(2)) {
                Some(p) => Some((seq![s[1]] + p.0, p.1)),
                None => None,
            }
        } else {
            None
        }
    } else {
        match spec_parse_quoted(s.drop_first()) {
            Some(p) => Some((seq![s[0]] + p.0, p.1)),
            None => None,
        }
    }
}

/// The `[[hotkeys]]` entry header.
pub open spec fn header_bytes() -> Seq<u8> {
    seq![91, 91, 104, 111, 116, 107, 101, 121, 115, 93, 93]
}

/// The `shortcut` key of an entry.
pub open spec fn shortcut_key() -> Seq<u8> {
    seq![115, 104, 111, 114, 116, 99, 117, 116]
}

/// The `path` key of an entry.
pub open spec fn path_key() -> Seq<u8> {
    seq![112, 97, 116, 104]
}

/// What one line of the document is.
pub enum LineKind {
    /// Blank, or a full-line `#` comment.
    Blank,
    /// A `[[hotkeys]]` entry header.
    Header,
    /// A `key = "value"` line: the key and the unescaped value.
    Entry(Seq<u8>, Seq<u8>),
    /// Anything else: the document is malformed.
    Bad,
}

pub open spec fn spec_classify_line(line: Seq<u8>) -> LineKind {
    let t = spec_skip_ws(line);
    if t.len() == 0 {
        LineKind::Blank
    } else if t[0] == 35 {
        LineKind::Blank
    } else if t[0] == 91 {
        if spec_trim_trailing_ws(t) == header_bytes() {
            LineKind::Header
        } else {
            LineKind::Bad
        }
    } else {
        let klen = spec_key_len(t);
        if klen == 0 {
            LineKind::Bad
        } else {
            let key = t.take(klen);
            let rest = spec_skip_ws(t.skip(klen));
            if rest.len() == 0 || rest[0] != 61 {
                LineKind::Bad
            } else {
                let v = spec_skip_ws(rest.drop_first());
                if v.len() == 0 || v[0] != 34 {
                    LineKind::Bad
                } else {
                    match spec_parse_quoted(v.drop_first()) {
                        Some(p) => if spec_skip_ws(p.1).len() == 0 {
                            LineKind::Entry(key, p.0)
                        } else {
                            LineKind::Bad
                        },
                        None => LineKind::Bad,
                    }
                }
            }
        }
    }
}

/// The document's lines: split on line feeds, `cur` being the bytes of
/// the line gathered so far.
pub open spec fn spec_lines_acc(s: Seq<u8>, cur: Seq<u8>) -> Seq<Seq<u8>>
    decreases s.len(),
{
    if s.len() == 0 {
        seq![cur]
    } else if s[0] == 10 {
        seq![cur] + spec_lines_acc(s.drop_first(), Seq::empty())
    } else {
        spec_lines_acc(s.drop_first(), cur.push(s[0]))
    }
}

pub open spec fn spec_lines(s: Seq<u8>) -> Seq<Seq<u8>> {
    spec_lines_acc(s, Seq::empty())
}

/// An entry being gathered: the fields seen so far under the current
/// `[[hotkeys]]` header.
pub struct SpecPartial {
    pub combo: Option<Seq<u8>>,
    pub target: Option<Seq<u8>>,
}

/// Close the entry being gathered, if one is open: both fields are
/// required, a missing one fails the whole load.
pub open spec fn spec_close(done: Seq<SpecShortcut>, cur: Option<SpecPartial>) -> Option<
    Seq<SpecShortcut>,
> {
    match cur {
        None => Some(done),
        Some(p) => match p.combo {
            Some(c) => match p.target {
                Some(t) => Some(done.push(SpecShortcut { combo: c, target: t })),
                None => None,
            },
            None => None,
        },
    }
}

/// Read the document line by line: headers open a new entry, `shortcut`
/// and `path` lines fill the open one (each at most once; unknown keys
/// are ignored), anything malformed fails the whole load.
pub open spec fn spec_fold_lines(
    lines: Seq<Seq<u8>>,
    done: Seq<SpecShortcut>,
    cur: Option<SpecPartial>,
) -> Option<Seq<SpecShortcut>>
    decreases lines.len(),
{
    if lines.len() == 0 {
        spec_close(done, cur)
    } else {
        match spec_classify_line(lines[0]) {
            LineKind::Blank => spec_fold_lines(lines.drop_first(), done, cur),
            LineKind::Header => match spec_close(done, cur) {
                Some(done2) => spec_fold_lines(
                    lines.drop_first(),
                    done2,
                    Some(SpecPartial { combo: None, target: None }),
                ),
                None => None,
            },
            LineKind::Entry(key, value) => match cur {
                None => None,
                Some(p) => if key == shortcut_key() {
                    if p.combo is Some {
                        None
                    } else {
                        spec_fold_lines(
                            lines.drop_first(),
                            done,
                            Some(SpecPartial { combo: Some(value), target: p.target }),
                        )
                    }
                } else if key == path_key() {
                    if p.target is Some {
                        None
                    } else {
                        spec_fold_lines(
                            lines.drop_first(),
                            done,
                            Some(SpecPartial { combo: p.combo, target: Some(value) }),
                        )
                    }
                } else {
                    spec_fold_lines(lines.drop_first(), done, cur)
                },
            },
            LineKind::Bad => None,
        }
    }
}

/// What a whole document denotes: its entries in order, or nothing for a
/// malformed document. A document without a single `[[hotkeys]]` header
/// misses the required field and is malformed too.
pub open spec fn spec_parse_config(s: Seq<u8>) -> Option<Seq<SpecShortcut>> {
    match spec_fold_lines(spec_lines(s), Seq::empty(), None) {
        Some(entries) => if entries.len() == 0 {
            None
        } else {
            Some(entries)
        },
        None => None,
    }
}

fn skip_ws_from(line: &[u8], from: usize) -> (j: usize)
    requires
        from <= line@.len(),
    ensures
        from <= j <= line@.len(),
        spec_skip_ws(line@.skip(from as int)) == line@.skip(j as int),
{
    let mut j: usize = from;
    while j < line.len() && (line[j] == 32 || line[j] == 9 || line[j] == 13)
        invariant
            from <= j <= line@.len(),
            spec_skip_ws(line@.skip(from as int)) == spec_skip_ws(line@.skip(j as int)),
        decreases line@.len() - j,
    {
        proof {
            assert(line@.skip(j as int)[0] == line@[j as int]);
            assert(line@.skip(j as int).drop_first() =~= line@.skip(j as int + 1));
        }
        j = j + 1;
    }
    j
}

fn trim_end_from(line: &[u8], from: usize) -> (k: usize)
    requires
        from <= line@.len(),
    ensures
        from <= k <= line@.len(),
        spec_trim_trailing_ws(line@.skip(from as int)) == line@.subrange(from as int, k as int),
{
    let mut k: usize = line.len();
    proof {
        assert(line@.skip(from as int) =~= line@.subrange(from as int, line@.len() as int));
    }
    while k > from && (line[k - 1] == 32 || line[k - 1] == 9 || line[k - 1] == 13)
        invariant
            from <= k <= line@.len(),
            spec_trim_trailing_ws(line@.skip(from as int)) == spec_trim_trailing_ws(
                line@.subrange(from as int, k as int),
            ),
        decreases k,
    {
        proof {
            assert(line@.subrange(from as int, k as int).last() == line@[k as int - 1]);
            assert(line@.subrange(from as int, k as int).drop_last() =~= line@.subrange(
                from as int,
                k as int - 1,
            ));
        }
        k = k - 1;
    }
    k
}

fn scan_key(line: &[u8], from: usize) -> (j: usize)
    requires
        from <= line@.len(),
    ensures
        from <= j <= line@.len(),
        j - from == spec_key_len(line@.skip(from as int)),
{
    let mut j: usize = from;
    while j < line.len() && ((65 <= line[j] && line[j] <= 90) || (97 <= line[j] && line[j] <= 122)
        || (48 <= line[j] && line[j] <= 57) || line[j] == 95 || line[j] == 45)
        invariant
            from <= j <= line@.len(),
            spec_key_len(line@.skip(from as int)) == (j - from) + spec_key_len(
                line@.skip(j as int),
            ),
        decreases line@.len() - j,
    {
        proof {
            assert(line@.skip(j as int)[0] == line@[j as int]);
            assert(line@.skip(j as int).drop_first() =~= line@.skip(j as int + 1));
        }
        j = j + 1;
    }
    j
}

fn parse_quoted(line: &[u8], from: usize) -> (r: Option<(Vec<u8>, usize)>)
    requires
        from <= line@.len(),
    ensures
        match spec_parse_quoted(line@.skip(from as int)) {
            Some(p) => r matches Some(q) && q.0@ == p.0 && q.1 <= line@.len() && line@.skip(
                q.1 as int,
            ) == p.1,
            None => r is None,
        },
{
    let mut content: Vec<u8> = Vec::new();
    let mut j: usize = from;
    proof {
        if spec_parse_quoted(line@.skip(from as int)) is Some {
            let p = spec_parse_quoted(line@.skip(from as int))->0;
            assert(content@ + p.0 =~= p.0);
        }
    }
    while j < line.len()
        invariant
            from <= j <= line@.len(),
            match spec_parse_quoted(line@.skip(j as int)) {
                Some(p) => spec_parse_quoted(line@.skip(from as int)) == Some(
                    (content@ + p.0, p.1),
                ),
                None => spec_parse_quoted(line@.skip(from as int)) is None,
            },
        decreases line@.len() - j,
    {
        proof {
            assert(line@.skip(j as int)[0] == line@[j as int]);
            assert(line@.skip(j as int).drop_first() =~= line@.skip(j as int + 1));
        }
        let b = line[j];
        if b == 34 {
            proof {
                assert(content@ + Seq::<u8>::empty() =~= content@);
            }
            return Some((content, j + 1));
        } else if b == 92 {
            if j + 1 < line.len() && (line[j + 1] == 92 || line[j + 1] == 34) {
                proof {
                    assert(line@.skip(j as int)[1] == line@[j as int + 1]);
                    assert(line@.skip(j as int).skip(2) =~= line@.skip(j as int + 2));
                }
                let ghost content_old = content@;
                content.push(line[j + 1]);
                proof {
                    if spec_parse_quoted(line@.skip(j as int + 2)) is Some {
                        let p = spec_parse_quoted(line@.skip(j as int + 2))->0;
                        assert(content_old + (seq![line@[j as int + 1]] + p.0) =~= content@ + p.0);
                    }
                }
                j = j + 2;
            } else {
                return None;
            }
        } else {
            let ghost content_old = content@;
            content.push(b);
            proof {
                if spec_parse_quoted(line@.skip(j as int + 1)) is Some {
                    let p = spec_parse_quoted(line@.skip(j as int + 1))->0;
                    assert(content_old + (seq![line@[j as int]] + p.0) =~= content@ + p.0);
                }
            }
            j = j + 1;
        }
    }
    proof {
        assert(line@.skip(j as int).len() == 0);
    }
    None
}

/// One line of the document, as the executable parser reads it.
enum LineItem {
    Blank,
    Header,
    Entry(Vec<u8>, Vec<u8>),
    Bad,
}

fn is_header_token(t: &[u8]) -> (r: bool)
    ensures
        r == (t@ == header_bytes()),
{
    let r = t.len() == 11 && t[0] == 91 && t[1] == 91 && t[2] == 104 && t[3] == 111 && t[4] == 116
        && t[5] == 107 && t[6] == 101 && t[7] == 121 && t[8] == 115 && t[9] == 93 && t[10] == 93;
    proof {
        if r {
            assert(t@ =~= header_bytes());
        }
    }
    r
}

fn is_shortcut_token(t: &[u8]) -> (r: bool)
    ensures
        r == (t@ == shortcut_key()),
{
    let r = t.len() == 8 && t[0] == 115 && t[1] == 104 && t[2] == 111 && t[3] == 114 && t[4] == 116
        && t[5] == 99 && t[6] == 117 && t[7] == 116;
    proof {
        if r {
            assert(t@ =~= shortcut_key());
        }
    }
    r
}

fn is_path_token(t: &[u8]) -> (r: bool)
    ensures
        r == (t@ == path_key()),
{
    let r = t.len() == 4 && t[0] == 112 && t[1] == 97 && t[2] == 116 && t[3] == 104;
    proof {
        if r {
            assert(t@ =~= path_key());
        }
    }
    r
}

fn classify_line(line: &[u8]) -> (r: LineItem)
    ensures
        match spec_classify_line(line@) {
            LineKind::Blank => r is Blank,
            LineKind::Header => r is Header,
            LineKind::Entry(k, v) => (r matches LineItem::Entry(key, value) && key@ == k && value@
                == v),
            LineKind::Bad => r is Bad,
        },
{
    let ghost t = spec_skip_ws(line@);
    let j0 = skip_ws_from(line, 0);
    proof {
        assert(line@.skip(0) =~= line@);
        assert(t == line@.skip(j0 as int));
    }
    if j0 == line.len() {
        return LineItem::Blank;
    }
    let b0 = line[j0];
    proof {
        assert(t[0] == line@[j0 as int]);
    }
    if b0 == 35 {
        return LineItem::Blank;
    }
    if b0 == 91 {
        let k = trim_end_from(line, j0);
        let tok = slice_subrange(line, j0, k);
        if is_header_token(tok) {
            return LineItem::Header;
        } else {
            return LineItem::Bad;
        }
    }
    let j1 = scan_key(line, j0);
    let ghost klen = spec_key_len(t);
    proof {
        assert(klen == j1 - j0);
    }
    if j1 == j0 {
        return LineItem::Bad;
    }
    let ghost key = t.take(klen);
    proof {
        assert(key =~= line@.subrange(j0 as int, j1 as int));
        assert(t.skip(klen) =~= line@.skip(j1 as int));
    }
    let j2 = skip_ws_from(line, j1);
    let ghost rest = spec_skip_ws(t.skip(klen));
    proof {
        assert(rest == line@.skip(j2 as int));
    }
    if j2 == line.len() {
        return LineItem::Bad;
    }
    proof {
        assert(rest[0] == line@[j2 as int]);
    }
    if line[j2] != 61 {
        return LineItem::Bad;
    }
    proof {
        assert(rest.drop_first() =~= line@.skip(j2 as int + 1));
    }
    let j3 = skip_ws_from(line, j2 + 1);
    let ghost v = spec_skip_ws(rest.drop_first());
    proof {
        assert(v == line@.skip(j3 as int));
    }
    if j3 == line.len() {
        return LineItem::Bad;
    }
    proof {
        assert(v[0] == line@[j3 as int]);
    }
    if line[j3] != 34 {
        return LineItem::Bad;
    }
    proof {
        assert(v.drop_first() =~= line@.skip(j3 as int + 1));
    }
    match parse_quoted(line, j3 + 1) {
        Some(q) => {
            let (value, after) = q;
            let j4 = skip_ws_from(line, after);
            if j4 == line.len() {
                let key_vec = vstd::slice::slice_to_vec(slice_subrange(line, j0, j1));
                LineItem::Entry(key_vec, value)
            } else {
                proof {
                    assert(spec_skip_ws(line@.skip(after as int)).len() == line@.len() - j4);
                }
                LineItem::Bad
            }
        },
        None => LineItem::Bad,
    }
}

fn split_lines(doc: &[u8]) -> (r: Vec<Vec<u8>>)
    ensures
        Seq::new(r@.len(), |i: int| r@[i]@) == spec_lines(doc@),
{
    let mut out: Vec<Vec<u8>> = Vec::new();
    let mut cur: Vec<u8> = Vec::new();
    let mut i: usize = 0;
    proof {
        assert(doc@.skip(0) =~= doc@);
        assert(Seq::new(out@.len(), |k: int| out@[k]@) =~= Seq::<Seq<u8>>::empty());
        assert(cur@ =~= Seq::<u8>::empty());
    }
    while i < doc.len()
        invariant
            i <= doc@.len(),
            spec_lines(doc@) == Seq::new(out@.len(), |k: int| out@[k]@) + spec_lines_acc(
                doc@.skip(i as int),
                cur@,
            ),
        decreases doc@.len() - i,
    {
        proof {
            assert(doc@.skip(i as int)[0] == doc@[i as int]);
            assert(doc@.skip(i as int).drop_first() =~= doc@.skip(i as int + 1));
        }
        let ghost out_v = Seq::new(out@.len(), |k: int| out@[k]@);
        let b = doc[i];
        if b == 10 {
            let ghost cur_v = cur@;
            let line = cur;
            cur = Vec::new();
            out.push(line);
            proof {
                assert(Seq::new(out@.len(), |k: int| out@[k]@) =~= out_v + seq![cur_v]);
                assert((out_v + seq![cur_v]) + spec_lines_acc(
                    doc@.skip(i as int + 1),
                    Seq::<u8>::empty(),
                ) =~= out_v + (seq![cur_v] + spec_lines_acc(
                    doc@.skip(i as int + 1),
                    Seq::<u8>::empty(),
                )));
            }
        } else {
            cur.push(b);
        }
        i = i + 1;
    }
    proof {
        assert(doc@.skip(i as int).len() == 0);
    }
    let ghost out_v = Seq::new(out@.len(), |k: int| out@[k]@);
    let ghost cur_v = cur@;
    out.push(cur);
    proof {
        assert(Seq::new(out@.len(), |k: int| out@[k]@) =~= out_v + seq![cur_v]);
    }
    out
}

/// The entries gathered so far, as mathematics.
spec fn done_view(d: Seq<ShortcutSpec>) -> Seq<SpecShortcut> {
    Seq::new(d.len(), |i: int| d[i]@)
}

spec fn opt_bytes(o: Option<Vec<u8>>) -> Option<Seq<u8>> {
    match o {
        Some(v) => Some(v@),
        None => None,
    }
}

spec fn partial_view(in_block: bool, c: Option<Vec<u8>>, t: Option<Vec<u8>>) -> Option<
    SpecPartial,
> {
    if in_block {
        Some(SpecPartial { combo: opt_bytes(c), target: opt_bytes(t) })
    } else {
        None
    }
}

/// Parse a whole configuration document. A malformed document — bad
/// structure, a value of the wrong shape, a missing or repeated required
/// field — is one error for the whole load, never a partial result.
pub fn parse_config(doc: &[u8]) -> (r: Result<Configuration, ConfigError>)
    ensures
        match spec_parse_config(doc@) {
            Some(entries) => r matches Ok(c) && c@ == entries,
            None => (r matches Err(e) && e == ConfigError::ParseError),
        },
{
    let lines = split_lines(doc);
    let ghost lines_v = spec_lines(doc@);
    let mut done: Vec<ShortcutSpec> = Vec::new();
    let mut in_block: bool = false;
    let mut cur_combo: Option<Vec<u8>> = None;
    let mut cur_target: Option<Vec<u8>> = None;
    let mut i: usize = 0;
    proof {
        assert(lines_v.skip(0) =~= lines_v);
        assert(done_view(done@) =~= Seq::<SpecShortcut>::empty());
    }
    while i < lines.len()
        invariant
            i <= lines@.len(),
            lines_v == spec_lines(doc@),
            lines_v == Seq::new(lines@.len(), |k: int| lines@[k]@),
            spec_fold_lines(lines_v, Seq::empty(), None) == spec_fold_lines(
                lines_v.skip(i as int),
                done_view(done@),
                partial_view(in_block, cur_combo, cur_target),
            ),
            !in_block ==> done@.len() == 0,
            !in_block ==> cur_combo is None && cur_target is None,
        decreases lines@.len() - i,
    {
        proof {
            assert(lines_v.skip(i as int)[0] == lines_v[i as int]);
            assert(lines_v[i as int] == lines@[i as int]@);
            assert(lines_v.skip(i as int).drop_first() =~= lines_v.skip(i as int + 1));
        }
        let line = &lines[i];
        match classify_line(line.as_slice()) {
            LineItem::Blank => {
            },
            LineItem::Header => {
                if in_block {
                    if cur_combo.is_none() || cur_target.is_none() {
                        return Err(ConfigError::ParseError);
                    }
                    let ghost done_old = done_view(done@);
                    let cv = cur_combo.unwrap();
                    let tv = cur_target.unwrap();
                    done.push(ShortcutSpec { combo: cv, target: tv });
                    proof {
                        assert(done_view(done@) =~= done_old.push(
                            SpecShortcut { combo: cv@, target: tv@ },
                        ));
                    }
                }
                in_block = true;
                cur_combo = None;
                cur_target = None;
            },
            LineItem::Entry(key, value) => {
                if !in_block {
                    return Err(ConfigError::ParseError);
                }
                if is_shortcut_token(key.as_slice()) {
                    if cur_combo.is_some() {
                        return Err(ConfigError::ParseError);
                    }
                    cur_combo = Some(value);
                } else if is_path_token(key.as_slice()) {
                    if cur_target.is_some() {
                        return Err(ConfigError::ParseError);
                    }
                    cur_target = Some(value);
                }
            },
            LineItem::Bad => {
                return Err(ConfigError::ParseError);
            },
        }
        i = i + 1;
    }
    proof {
        assert(lines_v.skip(i as int).len() == 0);
    }
    if !in_block {
        return Err(ConfigError::ParseError);
    }
    if cur_combo.is_none() || cur_target.is_none() {
        return Err(ConfigError::ParseError);
    }
    let ghost done_old = done_view(done@);
    let cv = cur_combo.unwrap();
    let tv = cur_target.unwrap();
    done.push(ShortcutSpec { combo: cv, target: tv });
    proof {
        assert(done_view(done@) =~= done_old.push(SpecShortcut { combo: cv@, target: tv@ }));
        assert(done_view(done@).len() > 0);
    }
    let c = Configuration { hotkeys: done };
    proof {
        assert(c@ =~= done_view(c.hotkeys@));
    }
    Ok(c)
}

/// One load on a file: a missing file is first seeded with the default
/// document, an existing one is left as it is; the content is then parsed.
/// The pair is the file's content after the load and the parse's result.
pub open spec fn spec_load_step(file_exists: bool, content: Seq<u8>) -> (Seq<u8>, Option<
    Seq<SpecShortcut>,
>) {
    let c = if file_exists {
        content
    } else {
        spec_default_config_text()
    };
    (c, spec_parse_config(c))
}

/// Idempotence of loading: once a load has run on a missing file, the file
/// exists with the seeded content, and a second load leaves the content
/// untouched and returns the very configuration the first load returned.
pub proof fn lemma_load_idempotent(content: Seq<u8>)
    ensures
        spec_load_step(true, spec_load_step(false, content).0).0 == spec_load_step(
            false,
            content,
        ).0,
        spec_load_step(true, spec_load_step(false, content).0).1 == spec_load_step(
            false,
            content,
        ).1,
{
}

} // verus!
