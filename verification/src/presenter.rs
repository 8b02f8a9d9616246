//! The text the screen shows; drawing it is the host program's part.
use crate::graph::layout::{COMMIT, LANE_PALETTE_SIZE};
use crate::graph::model::{strs, GraphCell, GraphRow};
use crate::text::{
    chars_of, has_prefix, prefix_of, push_char, range_has_prefix, string_from_range, take_chars, trim, trim_range,
    CharClass,
};
use vstd::prelude::*;

verus! {

/// How a ref is drawn.
#[derive(Debug, Clone, Copy, PartialEq, Eq, Structural)]
pub enum RefKind {
    /// `HEAD` or the branch it points to.
    Head,
    Tag,
    /// A remote or otherwise namespaced ref.
    Remote,
    Local,
}

/// The kind and label of a ref: `HEAD -> main` reads `HEAD→main`.
pub open spec fn classify_ref_spec(rf: Seq<char>) -> (RefKind, Seq<char>) {
    let t = trim(rf);
    if has_prefix(t, "HEAD -> "@) || t == "HEAD"@ {
        (
            RefKind::Head,
            if has_prefix(t, "HEAD -> "@) {
                "HEAD→"@ + t.skip("HEAD -> "@.len() as int)
            } else {
                t
            },
        )
    } else if has_prefix(t, "tag: "@) {
        (RefKind::Tag, t)
    } else if t.contains('/') {
        (RefKind::Remote, t)
    } else {
        (RefKind::Local, t)
    }
}

pub fn classify_ref(rf: &str) -> (res: (RefKind, String))
    ensures
        (res.0, res.1@) == classify_ref_spec(rf@),
{
    let cs = chars_of(rf);
    let (a, b) = trim_range(&cs, 0, cs.len(), CharClass::Whitespace);
    assert(cs@.subrange(0, cs@.len() as int) =~= rf@);
    let ghost t = cs@.subrange(a as int, b as int);
    let head_arrow = chars_of("HEAD -> ");
    let head = chars_of("HEAD");
    let tag = chars_of("tag: ");
    let label = string_from_range(&cs, a, b);
    let is_head_arrow = range_has_prefix(&cs, a, b, &head_arrow);
    let is_head = b - a == head.len() && range_has_prefix(&cs, a, b, &head);
    assert(is_head == (t == "HEAD"@)) by {
        if b - a == head@.len() {
            assert(t.take(head@.len() as int) =~= t);
        }
    }
    if is_head_arrow || is_head {
        if is_head_arrow {
            let mut s = String::from_str("HEAD→");
            let rest = string_from_range(&cs, a + head_arrow.len(), b);
            s.append(rest.as_str());
            assert(cs@.subrange(a + head_arrow@.len(), b as int) =~= t.skip(head_arrow@.len() as int));
            (RefKind::Head, s)
        } else {
            (RefKind::Head, label)
        }
    } else if range_has_prefix(&cs, a, b, &tag) {
        (RefKind::Tag, label)
    } else if range_contains(&cs, a, b, '/') {
        (RefKind::Remote, label)
    } else {
        (RefKind::Local, label)
    }
}

/// Whether `cs[from..to]` holds the character `c`.
fn range_contains(cs: &Vec<char>, from: usize, to: usize, c: char) -> (res: bool)
    requires
        from <= to <= cs@.len(),
    ensures
        res == cs@.subrange(from as int, to as int).contains(c),
{
    let ghost t = cs@.subrange(from as int, to as int);
    let mut i = from;
    while i < to
        invariant
            from <= i <= to <= cs@.len(),
            t == cs@.subrange(from as int, to as int),
            forall|j: int| from <= j < i ==> cs@[j] != c,
        decreases to - i,
    {
        if cs[i] == c {
            assert(t[i - from] == c);
            return true;
        }
        i += 1;
    }
    assert(!t.contains(c)) by {
        if t.contains(c) {
            let k = choose|k: int| 0 <= k < t.len() && t[k] == c;
            assert(cs@[from + k] == c);
        }
    }
    false
}

/// The first `max` characters of an author name.
pub fn truncate_author(author: &str, max: usize) -> (res: String)
    ensures
        res@ == prefix_of(author@, max as int),
{
    take_chars(author, max)
}

/// `s` padded with spaces on the right to `width` characters.
pub open spec fn pad_right(s: Seq<char>, width: int) -> Seq<char> {
    if s.len() >= width {
        s
    } else {
        s + Seq::new((width - s.len()) as nat, |i: int| ' ')
    }
}

/// The trailing metadata of a commit line: date, author (at most ten
/// characters, padded to ten), short hash.
pub open spec fn commit_meta_spec(date: Seq<char>, author: Seq<char>, short_hash: Seq<char>) -> Seq<char> {
    date + "  "@ + pad_right(prefix_of(author, 10), 10) + "  "@ + short_hash
}

pub fn commit_meta(date: &str, author: &str, short_hash: &str) -> (res: String)
    ensures
        res@ == commit_meta_spec(date@, author@, short_hash@),
{
    let a = truncate_author(author, 10);
    let mut s = String::from_str(date);
    s.append("  ");
    let ghost before = s@;
    s.append(a.as_str());
    let n = chars_of(a.as_str()).len();
    let mut k = n;
    while k < 10
        invariant
            n == a@.len(),
            n <= k <= 10 || (k == n && n >= 10),
            s@ == before + a@ + Seq::new((k - n) as nat, |i: int| ' '),
        decreases 10 - k,
    {
        let ghost prev = s@;
        push_char(&mut s, ' ');
        assert(before + a@ + Seq::new((k + 1 - n) as nat, |i: int| ' ') =~= prev.push(' '));
        k += 1;
    }
    assert(pad_right(a@, 10) =~= a@ + Seq::new((k - n) as nat, |i: int| ' '));
    s.append("  ");
    s.append(short_hash);
    assert(s@ =~= commit_meta_spec(date@, author@, short_hash@));
    s
}

/// The `chrono` format of a commit date that lies `days` days back: the
/// time for today, weekday and time within a week, else the date.
pub fn relative_date_format(days: i64) -> (res: &'static str)
    ensures
        res@ == if days == 0 {
            "%H:%M"@
        } else if days < 7 {
            "%a %H:%M"@
        } else {
            "%d %b %Y"@
        },
{
    if days == 0 {
        "%H:%M"
    } else if days < 7 {
        "%a %H:%M"
    } else {
        "%d %b %Y"
    }
}

/// What the right-hand pane shows, named in the header.
pub fn mode_label(show_details_pane: bool, show_diff: bool) -> (res: &'static str)
    ensures
        res@ == if !show_details_pane {
            "graph"@
        } else if show_diff {
            "diff"@
        } else {
            "details"@
        },
{
    if !show_details_pane {
        "graph"
    } else if show_diff {
        "diff"
    } else {
        "details"
    }
}

/// The header line: repository name, status, mode.
pub fn header_line(repo_name: &str, status: &str, mode: &str) -> (res: String)
    ensures
        res@ == " "@ + repo_name@ + " · "@ + status@ + " · "@ + mode@,
{
    let mut s = String::from_str(" ");
    s.append(repo_name);
    s.append(" · ");
    s.append(status);
    s.append(" · ");
    s.append(mode);
    s
}

/// The details pane: the diff (or a loading note while it is empty), else the
/// commit details.
pub fn details_pane_text(show_diff: bool, diff_text: &str, details_text: &str) -> (res: String)
    ensures
        res@ == if show_diff {
            if diff_text@.len() == 0 {
                "Loading diff…"@
            } else {
                diff_text@
            }
        } else {
            details_text@
        },
{
    if show_diff {
        if diff_text.is_empty() {
            String::from_str("Loading diff…")
        } else {
            String::from_str(diff_text)
        }
    } else {
        String::from_str(details_text)
    }
}

/// The title of the details pane.
pub fn details_title(show_diff: bool) -> (res: &'static str)
    ensures
        res@ == if show_diff {
            " Diff "@
        } else {
            " Commit "@
        },
{
    if show_diff {
        " Diff "
    } else {
        " Commit "
    }
}

/// A search result line: short hash and subject.
pub fn search_item(row: &GraphRow) -> (res: String)
    ensures
        res@ == row.short_hash@ + " "@ + row.subject@,
{
    let mut s = row.short_hash.clone();
    s.append(" ");
    s.append(row.subject.as_str());
    s
}

pub open spec fn search_item_spec(row: GraphRow) -> Seq<char> {
    row.short_hash@ + " "@ + row.subject@
}

/// The lines of the search list for the first `n` matches: the item of each
/// match that points at a row, and whether it is under the cursor.
pub open spec fn search_list_spec(rows: Seq<GraphRow>, matches: Seq<usize>, cursor: usize, n: int) -> Seq<
    (Seq<char>, bool),
>
    decreases n,
{
    if n <= 0 {
        seq![]
    } else {
        let r = search_list_spec(rows, matches, cursor, n - 1);
        let idx = matches[n - 1];
        if idx < rows.len() {
            r.push((search_item_spec(rows[idx as int]), n - 1 == cursor))
        } else {
            r
        }
    }
}

pub open spec fn line_views(v: Seq<(String, bool)>) -> Seq<(Seq<char>, bool)> {
    v.map_values(|p: (String, bool)| (p.0@, p.1))
}

/// The search list (see `search_list_spec`); matches that point past the
/// rows are left out.
pub fn search_list(rows: &[GraphRow], matches: &[usize], cursor: usize) -> (res: Vec<(String, bool)>)
    ensures
        line_views(res@) == search_list_spec(rows@, matches@, cursor, matches@.len() as int),
{
    let mut out: Vec<(String, bool)> = Vec::new();
    let mut i: usize = 0;
    while i < matches.len()
        invariant
            i <= matches@.len(),
            line_views(out@) == search_list_spec(rows@, matches@, cursor, i as int),
        decreases matches@.len() - i,
    {
        let idx = matches[i];
        if idx < rows.len() {
            let item = search_item(&rows[idx]);
            let ghost before = line_views(out@);
            let ghost line = (item@, i == cursor);
            out.push((item, i == cursor));
            assert(line_views(out@) =~= before.push(line));
        }
        i += 1;
    }
    out
}

/// Whether the side pane is drawn: for the commit details and for the diff alike.
pub fn side_pane_shown(show_details_pane: bool, show_diff: bool) -> (res: bool)
    ensures
        res == (show_details_pane || show_diff),
{
    show_details_pane || show_diff
}

// ---------------------------------------------------------------------------
// The styled pieces of a commit line
// ---------------------------------------------------------------------------

/// The colours the screen draws with.
#[derive(Debug, Clone, Copy, PartialEq, Eq, Structural)]
pub enum Hue {
    Blue,
    LightRed,
    Cyan,
    Yellow,
    Magenta,
    Green,
    LightBlue,
    LightYellow,
    DarkGray,
}

/// The colour of lane palette entry `idx`; the palette of eight repeats.
pub open spec fn lane_hue_spec(idx: u8) -> Hue {
    let k = idx % 8;
    if k == 0 {
        Hue::Blue
    } else if k == 1 {
        Hue::LightRed
    } else if k == 2 {
        Hue::Cyan
    } else if k == 3 {
        Hue::Yellow
    } else if k == 4 {
        Hue::Magenta
    } else if k == 5 {
        Hue::Green
    } else if k == 6 {
        Hue::LightBlue
    } else {
        Hue::LightYellow
    }
}

pub fn lane_hue(idx: u8) -> (res: Hue)
    ensures
        res == lane_hue_spec(idx),
{
    let k = idx % LANE_PALETTE_SIZE;
    if k == 0 {
        Hue::Blue
    } else if k == 1 {
        Hue::LightRed
    } else if k == 2 {
        Hue::Cyan
    } else if k == 3 {
        Hue::Yellow
    } else if k == 4 {
        Hue::Magenta
    } else if k == 5 {
        Hue::Green
    } else if k == 6 {
        Hue::LightBlue
    } else {
        Hue::LightYellow
    }
}

/// The colour a ref's pill is drawn in.
pub open spec fn ref_hue_spec(kind: RefKind) -> Hue {
    match kind {
        RefKind::Head => Hue::Cyan,
        RefKind::Tag => Hue::Magenta,
        RefKind::Remote => Hue::Yellow,
        RefKind::Local => Hue::Green,
    }
}

pub fn ref_hue(kind: RefKind) -> (res: Hue)
    ensures
        res == ref_hue_spec(kind),
{
    match kind {
        RefKind::Head => Hue::Cyan,
        RefKind::Tag => Hue::Magenta,
        RefKind::Remote => Hue::Yellow,
        RefKind::Local => Hue::Green,
    }
}

/// A run of text and its style: foreground and background colours (the
/// terminal's own where `None`) and whether it is bold.
pub struct Piece {
    pub text: String,
    pub fg: Option<Hue>,
    pub bg: Option<Hue>,
    pub bold: bool,
}

pub struct PieceView {
    pub text: Seq<char>,
    pub fg: Option<Hue>,
    pub bg: Option<Hue>,
    pub bold: bool,
}

impl View for Piece {
    type V = PieceView;

    open spec fn view(&self) -> PieceView {
        PieceView { text: self.text@, fg: self.fg, bg: self.bg, bold: self.bold }
    }
}

pub open spec fn piece_views(ps: Seq<Piece>) -> Seq<PieceView> {
    ps.map_values(|p: Piece| p@)
}

/// The background of every piece of the selected line.
pub open spec fn selection_bg(selected: bool) -> Option<Hue> {
    if selected {
        Some(Hue::DarkGray)
    } else {
        None
    }
}

/// Spacing between the parts of a line.
pub open spec fn gap_piece(text: Seq<char>, selected: bool) -> PieceView {
    PieceView { text, fg: None, bg: selection_bg(selected), bold: false }
}

/// A graph glyph in its lane's colour; the commit glyph is bold.
pub open spec fn cell_piece(c: GraphCell, selected: bool) -> PieceView {
    PieceView {
        text: seq![c.ch],
        fg: Some(lane_hue_spec(c.color_idx)),
        bg: selection_bg(selected),
        bold: c.ch == COMMIT,
    }
}

/// A ref as a bold pill: its label in brackets, coloured by its kind.
pub open spec fn ref_pill_piece(rf: Seq<char>, selected: bool) -> PieceView {
    let (kind, label) = classify_ref_spec(rf);
    PieceView { text: "["@ + label + "]"@, fg: Some(ref_hue_spec(kind)), bg: selection_bg(selected), bold: true }
}

/// Each ref's pill followed by a space.
pub open spec fn ref_pieces(refs: Seq<Seq<char>>, selected: bool) -> Seq<PieceView>
    decreases refs.len(),
{
    if refs.len() == 0 {
        seq![]
    } else {
        ref_pieces(refs.drop_last(), selected).push(ref_pill_piece(refs.last(), selected)).push(
            gap_piece(" "@, selected),
        )
    }
}

/// A commit's line in the graph list: the glyphs, the ref pills, the subject
/// (bold when selected) and the metadata in grey, with `date` as the date.
pub open spec fn commit_line_spec(row: GraphRow, date: Seq<char>, selected: bool) -> Seq<PieceView> {
    row.cells@.map_values(|c: GraphCell| cell_piece(c, selected)) + seq![gap_piece("  "@, selected)]
        + ref_pieces(strs(row.refs@), selected) + seq![
        PieceView { text: row.subject@, fg: None, bg: selection_bg(selected), bold: selected },
        gap_piece("  "@, selected),
        PieceView {
            text: commit_meta_spec(date, row.author@, row.short_hash@),
            fg: Some(Hue::DarkGray),
            bg: selection_bg(selected),
            bold: false,
        },
    ]
}

fn push_piece(out: &mut Vec<Piece>, p: Piece)
    ensures
        piece_views(final(out)@) == piece_views(old(out)@).push(p@),
{
    let ghost before = piece_views(out@);
    let ghost v = p@;
    out.push(p);
    assert(piece_views(out@) =~= before.push(v));
}

fn selection_bg_of(selected: bool) -> (res: Option<Hue>)
    ensures
        res == selection_bg(selected),
{
    if selected {
        Some(Hue::DarkGray)
    } else {
        None
    }
}

/// The styled pieces of a commit's line (see `commit_line_spec`).
pub fn commit_line(row: &GraphRow, date: &str, selected: bool) -> (res: Vec<Piece>)
    ensures
        piece_views(res@) == commit_line_spec(*row, date@, selected),
{
    let bg = selection_bg_of(selected);
    let mut out: Vec<Piece> = Vec::new();
    let ghost cells = row.cells@.map_values(|c: GraphCell| cell_piece(c, selected));
    let mut i: usize = 0;
    while i < row.cells.len()
        invariant
            i <= row.cells@.len(),
            bg == selection_bg(selected),
            cells == row.cells@.map_values(|c: GraphCell| cell_piece(c, selected)),
            piece_views(out@) == cells.take(i as int),
        decreases row.cells@.len() - i,
    {
        let cell = row.cells[i];
        let mut text = String::new();
        push_char(&mut text, cell.ch);
        assert(text@ =~= seq![cell.ch]);
        push_piece(&mut out, Piece { text, fg: Some(lane_hue(cell.color_idx)), bg, bold: cell.ch == COMMIT });
        assert(cells.take(i + 1) =~= cells.take(i as int).push(cell_piece(cell, selected)));
        i += 1;
    }
    assert(cells.take(i as int) =~= cells);
    push_piece(&mut out, Piece { text: String::from_str("  "), fg: None, bg, bold: false });
    let ghost head = piece_views(out@);
    let ghost refs = strs(row.refs@);
    let mut k: usize = 0;
    assert(refs.take(0) =~= Seq::<Seq<char>>::empty());
    assert(head + ref_pieces(refs.take(0), selected) =~= head);
    while k < row.refs.len()
        invariant
            k <= row.refs@.len(),
            bg == selection_bg(selected),
            refs == strs(row.refs@),
            piece_views(out@) == head + ref_pieces(refs.take(k as int), selected),
        decreases row.refs@.len() - k,
    {
        let (kind, label) = classify_ref(row.refs[k].as_str());
        let mut pill = String::from_str("[");
        pill.append(label.as_str());
        pill.append("]");
        push_piece(&mut out, Piece { text: pill, fg: Some(ref_hue(kind)), bg, bold: true });
        push_piece(&mut out, Piece { text: String::from_str(" "), fg: None, bg, bold: false });
        assert(refs.take(k + 1).drop_last() =~= refs.take(k as int));
        assert(refs.take(k + 1).last() == row.refs@[k as int]@);
        assert(piece_views(out@) =~= head + ref_pieces(refs.take(k + 1), selected));
        k += 1;
    }
    assert(refs.take(k as int) =~= refs);
    push_piece(&mut out, Piece { text: row.subject.clone(), fg: None, bg, bold: selected });
    push_piece(&mut out, Piece { text: String::from_str("  "), fg: None, bg, bold: false });
    let meta = commit_meta(date, row.author.as_str(), row.short_hash.as_str());
    push_piece(&mut out, Piece { text: meta, fg: Some(Hue::DarkGray), bg, bold: false });
    assert(piece_views(out@) =~= commit_line_spec(*row, date@, selected));
    out
}

} // verus!
