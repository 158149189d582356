//! The stack view: every line that `jf status` prints, built from the stack.

use vstd::prelude::*;
use crate::term::{paint, painted, measure_text_width, narrow_char, narrow_text, text_width};
use crate::text::{all_digits, chain, decimal, decimal_reads_back, first_line, first_line_of, push_chain, push_decimal, push_repeat, repeat, repeat_len};
use vstd::utf8::{decode_utf8, encode_utf8, is_char_boundary};
use crate::theme::{Color, IconSet, Theme};
use crate::types::{BookmarkSyncState, ChangeWithStatus};

verus! {

/// A piece of text and the colour it is painted with.
pub type Piece = (Seq<char>, Color);

/// `ps` holds, in order, a painting of each piece.
pub open spec fn painted_all(ps: Seq<Seq<char>>, pieces: Seq<Piece>) -> bool {
    &&& ps.len() == pieces.len()
    &&& forall|i: int| 0 <= i < ps.len() ==> painted(#[trigger] ps[i], pieces[i].0, pieces[i].1)
}

/// The texts of the pieces: what the paintings are when colouring is off.
pub open spec fn plain(pieces: Seq<Piece>) -> Seq<Seq<char>> {
    pieces.map_values(|p: Piece| p.0)
}

/// Paintings of two lists of pieces, one after the other, paint the joined list.
pub proof fn lemma_painted_all_concat(a: Seq<Seq<char>>, pa: Seq<Piece>, b: Seq<Seq<char>>, pb: Seq<Piece>)
    requires
        painted_all(a, pa),
        painted_all(b, pb),
    ensures
        painted_all(a + b, pa + pb),
{
    assert forall|i: int| 0 <= i < (a + b).len() implies painted(#[trigger] (a + b)[i], (pa + pb)[i].0, (pa + pb)[i].1) by {
        if i < a.len() {
            assert((a + b)[i] == a[i]);
            assert((pa + pb)[i] == pa[i]);
        } else {
            assert((a + b)[i] == b[i - a.len()]);
            assert((pa + pb)[i] == pb[i - a.len()]);
        }
    }
}

/// Every character of `repeat([c], n)` is `c`.
proof fn lemma_repeat_char(c: char, n: nat, i: int)
    requires
        0 <= i < n,
    ensures
        repeat(seq![c], n)[i] == c,
    decreases n,
{
    let m = (n - 1) as nat;
    repeat_len(seq![c], m);
    assert(repeat(seq![c], n) == repeat(seq![c], m) + seq![c]);
    assert(seq![c].len() == 1);
    if i < m {
        lemma_repeat_char(c, m, i);
    }
}

/// Joined narrow texts are narrow.
proof fn lemma_narrow_concat(a: Seq<char>, b: Seq<char>)
    requires
        narrow_text(a),
        narrow_text(b),
    ensures
        narrow_text(a + b),
{
    assert forall|i: int| 0 <= i < (a + b).len() implies narrow_char(#[trigger] (a + b)[i]) by {
        if i < a.len() {
            assert((a + b)[i] == a[i]);
        } else {
            assert((a + b)[i] == b[i - a.len()]);
        }
    }
}

/// Repeating a narrow text gives a narrow text.
proof fn lemma_narrow_repeat(s: Seq<char>, n: nat)
    requires
        narrow_text(s),
    ensures
        narrow_text(repeat(s, n)),
    decreases n,
{
    if n > 0 {
        lemma_narrow_repeat(s, (n - 1) as nat);
        lemma_narrow_concat(repeat(s, (n - 1) as nat), s);
    } else {
        assert(repeat(s, 0) =~= Seq::<char>::empty());
    }
}

/// The stroke, the corners and the side border are narrow, and so is a space.
proof fn lemma_box_glyphs_narrow()
    ensures
        narrow_text("─"@),
        narrow_text("╭"@),
        narrow_text("╮"@),
        narrow_text("╰"@),
        narrow_text("╯"@),
        narrow_text("│"@),
        narrow_text(" "@),
{
    reveal_strlit("─");
    reveal_strlit("╭");
    reveal_strlit("╮");
    reveal_strlit("╰");
    reveal_strlit("╯");
    reveal_strlit("│");
    reveal_strlit(" ");
}

/// With colouring off, each piece is painted as its own text: the plain
/// texts are one outcome that every rendering contract admits.
pub proof fn plain_texts_are_a_painting(pieces: Seq<Piece>)
    ensures
        painted_all(plain(pieces), pieces),
{
}

/// The characters of each line.
pub open spec fn lines_view(lines: Seq<String>) -> Seq<Seq<char>> {
    lines.map_values(|l: String| l@)
}

/// Indent of the lines below a change's main line (aligned with its change id).
pub const DETAIL_INDENT: &'static str = "         ";

/// Indent of the connector and trunk lines (aligned with the change icons).
pub const ICON_INDENT: &'static str = "      ";

/// Draws a stack with a given colour theme and icon set.
pub struct Renderer {
    theme: &'static Theme,
    icons: &'static IconSet,
}

impl Renderer {
    /// The theme that the renderer paints with.
    pub closed spec fn palette(&self) -> Theme {
        *self.theme
    }

    /// The icon set that the renderer draws with.
    pub closed spec fn glyphs(&self) -> IconSet {
        *self.icons
    }

    pub fn new(theme: &'static Theme, icons: &'static IconSet) -> (r: Self)
        ensures
            r.palette() == *theme,
            r.glyphs() == *icons,
    {
        Self { theme, icons }
    }

    // ----- the connector line between changes -----

    /// The connector paints the pipe icon.
    pub open spec fn connection_pieces(&self) -> Seq<Piece> {
        seq![(self.glyphs().pipe@, self.palette().overlay)]
    }

    /// The connector line, given the painting of the pipe.
    pub open spec fn connection_line(&self, ps: Seq<Seq<char>>) -> Seq<char> {
        ICON_INDENT@ + ps[0]
    }

    /// Appends the connector line: the pipe icon below the change icons.
    pub fn push_connection(&self, lines: &mut Vec<String>)
        ensures
            exists|ps: Seq<Seq<char>>|
                #[trigger] painted_all(ps, self.connection_pieces()) && lines_view(final(lines)@)
                    == lines_view(old(lines)@).push(self.connection_line(ps)),
    {
        let p = paint(self.icons.pipe, self.theme.overlay);
        let mut line = String::new();
        line.append(ICON_INDENT);
        line.append(p.as_str());
        lines.push(line);
        proof {
            let ps = seq![p@];
            assert(painted_all(ps, self.connection_pieces()));
            assert(lines_view(lines@) =~= lines_view(old(lines)@).push(self.connection_line(ps)));
        }
    }

    // ----- the trunk line at the bottom of the stack -----

    /// The trunk line paints the main icon and the trunk's name, both blue.
    pub open spec fn main_pieces(&self, main_ref: Seq<char>) -> Seq<Piece> {
        seq![(self.glyphs().main@, self.palette().blue), (main_ref, self.palette().blue)]
    }

    /// The trunk line, given the paintings of its pieces.
    pub open spec fn main_line(&self, ps: Seq<Seq<char>>) -> Seq<char> {
        ICON_INDENT@ + ps[0] + "  "@ + ps[1]
    }

    /// Appends the trunk line: the main icon and the name of the trunk.
    pub fn push_main(&self, lines: &mut Vec<String>, main_ref: &str)
        ensures
            exists|ps: Seq<Seq<char>>|
                #[trigger] painted_all(ps, self.main_pieces(main_ref@)) && lines_view(final(lines)@)
                    == lines_view(old(lines)@).push(self.main_line(ps)),
    {
        let p0 = paint(self.icons.main, self.theme.blue);
        let p1 = paint(main_ref, self.theme.blue);
        let mut line = String::new();
        line.append(ICON_INDENT);
        line.append(p0.as_str());
        line.append("  ");
        line.append(p1.as_str());
        lines.push(line);
        proof {
            let ps = seq![p0@, p1@];
            assert(painted_all(ps, self.main_pieces(main_ref@)));
            assert(lines_view(lines@) =~= lines_view(old(lines)@).push(self.main_line(ps)));
        }
    }

    // ----- the status hint under a change -----

    /// The status hint of a change: the lightbulb and `ready to create PR` for
    /// a change with no bookmark (the working copy too); none otherwise.
    pub open spec fn status_text(&self, item: ChangeWithStatus) -> Option<Seq<char>> {
        if item.bookmark.is_none() {
            Some(self.glyphs().lightbulb@ + " ready to create PR"@)
        } else {
            None
        }
    }

    /// The hint for a change that has no bookmark yet.
    pub fn format_status(&self, item: &ChangeWithStatus) -> (r: Option<String>)
        ensures
            match r {
                Some(s) => self.status_text(*item) == Some(s@),
                None => self.status_text(*item).is_none(),
            },
            r.is_some() <==> item.bookmark.is_none(),
            r matches Some(s) ==> s@ == self.glyphs().lightbulb@ + " ready to create PR"@,
    {
        if item.bookmark.is_none() {
            let mut s = String::new();
            s.append(self.icons.lightbulb);
            s.append(" ready to create PR");
            Some(s)
        } else {
            None
        }
    }

    // ----- the bottom edge of the box -----

    /// The bottom edge: a corner, `inner_width` strokes, a corner.
    pub open spec fn bottom_line(inner_width: nat) -> Seq<char> {
        "╰"@ + repeat("─"@, inner_width) + "╯"@
    }

    /// The bottom edge of a box with `inner_width` columns inside.
    pub fn box_bottom_line(inner_width: usize) -> (r: String)
        ensures
            r@ == Self::bottom_line(inner_width as nat),
            r@.len() == inner_width + 2,
            text_width(r@) == inner_width + 2,
    {
        proof {
            Self::bottom_line_len(inner_width as nat);
            lemma_box_glyphs_narrow();
            lemma_narrow_repeat("─"@, inner_width as nat);
            lemma_narrow_concat("╰"@, repeat("─"@, inner_width as nat));
            lemma_narrow_concat("╰"@ + repeat("─"@, inner_width as nat), "╯"@);
        }
        let mut s = String::new();
        s.append("╰");
        push_repeat(&mut s, "─", inner_width);
        s.append("╯");
        // the display width of the edge, for the contract
        let _width = measure_text_width(s.as_str());
        s
    }

    // ----- the bookmark line(s) under a change -----

    /// What stands left of the fork point of a diverged bookmark, uncoloured.
    pub open spec fn fork_prefix(&self, bookmark: Seq<char>) -> Seq<char> {
        DETAIL_INDENT@ + self.glyphs().bookmark@ + " "@ + bookmark + " ───"@
    }

    /// The upper arm of a fork: one dot per local commit ahead.
    pub open spec fn local_arm(n: nat) -> Seq<char> {
        "╭──"@ + chain("●"@, n) + "    local (+"@ + decimal(n) + ")"@
    }

    /// The lower arm of a fork: one dot per remote commit ahead.
    pub open spec fn remote_arm(n: nat) -> Seq<char> {
        "╰──"@ + chain("○"@, n) + "    origin (+"@ + decimal(n) + ") ⚠ diverged"@
    }

    /// The label of the fork point; `???` when it is unknown.
    pub open spec fn fork_label(fork_point: Option<String>) -> Seq<char> {
        match fork_point {
            Some(f) => f@,
            None => "???"@,
        }
    }

    /// The pieces that the bookmark line(s) of `state` paint, in order.
    pub open spec fn sync_pieces(&self, bookmark: Seq<char>, state: BookmarkSyncState) -> Seq<Piece> {
        let icon = (self.glyphs().bookmark@, self.palette().teal);
        let name = (bookmark, self.palette().teal);
        match state {
            BookmarkSyncState::NoBookmark => seq![],
            BookmarkSyncState::LocalOnly => seq![icon, name, ("(local only)"@, self.palette().overlay)],
            BookmarkSyncState::Synced => seq![icon, name, ("✓"@, self.palette().green)],
            BookmarkSyncState::NeedsPush => seq![icon, name, ("↑ needs push"@, self.palette().yellow)],
            BookmarkSyncState::Ahead { count } => seq![
                icon,
                name,
                ("↑"@ + decimal(count as nat), self.palette().green),
                ("ahead"@, self.palette().overlay),
            ],
            BookmarkSyncState::Behind { count } => seq![
                icon,
                name,
                ("↓"@ + decimal(count as nat), self.palette().yellow),
                ("behind"@, self.palette().overlay),
            ],
            BookmarkSyncState::Diverged { local_ahead, remote_ahead, fork_point } => seq![
                (Self::local_arm(local_ahead as nat), self.palette().green),
                (self.fork_prefix(bookmark), self.palette().teal),
                (Self::fork_label(fork_point), self.palette().overlay),
                (Self::remote_arm(remote_ahead as nat), self.palette().red),
            ],
        }
    }

    /// The bookmark line(s) of `state`, given the paintings `ps` of its pieces.
    /// A diverged bookmark takes three lines: the fork arms stand indented by
    /// the measured width of the fork prefix, so that they start in the
    /// column of the fork point.
    pub open spec fn sync_lines(&self, bookmark: Seq<char>, state: BookmarkSyncState, ps: Seq<Seq<char>>) -> Seq<Seq<char>> {
        match state {
            BookmarkSyncState::NoBookmark => seq![],
            BookmarkSyncState::Ahead { .. } => seq![DETAIL_INDENT@ + ps[0] + " "@ + ps[1] + " "@ + ps[2] + " "@ + ps[3]],
            BookmarkSyncState::Behind { .. } => seq![DETAIL_INDENT@ + ps[0] + " "@ + ps[1] + " "@ + ps[2] + " "@ + ps[3]],
            BookmarkSyncState::Diverged { .. } => {
                let indent = repeat(" "@, text_width(self.fork_prefix(bookmark)));
                seq![indent + ps[0], ps[1] + "○ "@ + ps[2], indent + ps[3]]
            },
            _ => seq![DETAIL_INDENT@ + ps[0] + " "@ + ps[1] + " "@ + ps[2]],
        }
    }

    /// The fork of a diverged bookmark: its prefix is the detail indent, the
    /// renderer's own bookmark glyph, a space, the bookmark's name and ` ───`,
    /// painted teal. Without colour, the middle line is that prefix, the fork
    /// point `○` and its label; the arms above and below stand behind one
    /// space per column that the prefix measures, so that `╭` and `╰` fall in
    /// the column of `○`.
    pub proof fn fork_arms_align(&self, bookmark: Seq<char>, local_ahead: usize, remote_ahead: usize, fork_point: Option<String>)
        ensures
            ({
                let state = BookmarkSyncState::Diverged { local_ahead, remote_ahead, fork_point };
                let prefix = DETAIL_INDENT@ + self.glyphs().bookmark@ + " "@ + bookmark + " ───"@;
                let pieces = self.sync_pieces(bookmark, state);
                let lines = self.sync_lines(bookmark, state, plain(pieces));
                let indent = repeat(" "@, text_width(prefix));
                &&& self.fork_prefix(bookmark) == prefix
                &&& pieces.len() == 4
                &&& pieces[1] == (prefix, self.palette().teal)
                &&& lines.len() == 3
                &&& lines[1] == prefix + "○ "@ + Self::fork_label(fork_point)
                &&& lines[0] == indent + Self::local_arm(local_ahead as nat)
                &&& lines[2] == indent + Self::remote_arm(remote_ahead as nat)
                &&& indent.len() == text_width(prefix)
                &&& forall|i: int| 0 <= i < indent.len() ==> #[trigger] indent[i] == ' '
            }),
    {
        reveal_strlit(" ");
        let prefix = DETAIL_INDENT@ + self.glyphs().bookmark@ + " "@ + bookmark + " ───"@;
        repeat_len(" "@, text_width(prefix));
        assert(" "@ =~= seq![' ']);
        assert forall|i: int| 0 <= i < repeat(" "@, text_width(prefix)).len() implies #[trigger] repeat(
            " "@,
            text_width(prefix),
        )[i] == ' ' by {
            lemma_repeat_char(' ', text_width(prefix), i);
        }
    }

    /// Every sync state but a divergence takes one line: without colour, the
    /// detail indent, the renderer's own bookmark glyph, the bookmark's name
    /// and the state's mark (`(local only)`, `✓`, `↑ needs push`, `↑N ahead`,
    /// `↓N behind`), one space apart; glyph and name are painted teal.
    pub proof fn bookmark_line_shows_glyph_name_and_mark(&self, bookmark: Seq<char>, state: BookmarkSyncState)
        requires
            !(state is NoBookmark),
            !(state is Diverged),
        ensures
            ({
                let pieces = self.sync_pieces(bookmark, state);
                let lines = self.sync_lines(bookmark, state, plain(pieces));
                let mark = match state {
                    BookmarkSyncState::LocalOnly => "(local only)"@,
                    BookmarkSyncState::Synced => "✓"@,
                    BookmarkSyncState::NeedsPush => "↑ needs push"@,
                    BookmarkSyncState::Ahead { count } => "↑"@ + decimal(count as nat) + " ahead"@,
                    BookmarkSyncState::Behind { count } => "↓"@ + decimal(count as nat) + " behind"@,
                    _ => seq![],
                };
                &&& pieces[0] == (self.glyphs().bookmark@, self.palette().teal)
                &&& pieces[1] == (bookmark, self.palette().teal)
                &&& lines == seq![DETAIL_INDENT@ + self.glyphs().bookmark@ + " "@ + bookmark + " "@ + mark]
            }),
    {
        reveal_strlit(" ahead");
        reveal_strlit("ahead");
        reveal_strlit(" behind");
        reveal_strlit("behind");
        reveal_strlit(" ");
        let pieces = self.sync_pieces(bookmark, state);
        let q = plain(pieces);
        let head = DETAIL_INDENT@ + self.glyphs().bookmark@ + " "@ + bookmark + " "@;
        match state {
            BookmarkSyncState::Ahead { count } => {
                assert(" "@ + "ahead"@ =~= " ahead"@);
                assert(head + q[2] + " "@ + q[3] =~= head + ("↑"@ + decimal(count as nat) + " ahead"@));
            },
            BookmarkSyncState::Behind { count } => {
                assert(" "@ + "behind"@ =~= " behind"@);
                assert(head + q[2] + " "@ + q[3] =~= head + ("↓"@ + decimal(count as nat) + " behind"@));
            },
            _ => {},
        }
        assert(self.sync_lines(bookmark, state, q) =~= seq![head + match state {
            BookmarkSyncState::LocalOnly => "(local only)"@,
            BookmarkSyncState::Synced => "✓"@,
            BookmarkSyncState::NeedsPush => "↑ needs push"@,
            BookmarkSyncState::Ahead { count } => "↑"@ + decimal(count as nat) + " ahead"@,
            BookmarkSyncState::Behind { count } => "↓"@ + decimal(count as nat) + " behind"@,
            _ => seq![],
        }]);
    }

    /// The bookmark icon and name, and a mark after them, on one line.
    fn bookmark_line(&self, bookmark: &str, mark: &str, mark_color: Color) -> (r: (String, Ghost<Seq<Seq<char>>>))
        ensures
            painted_all(r.1@, seq![
                (self.glyphs().bookmark@, self.palette().teal),
                (bookmark@, self.palette().teal),
                (mark@, mark_color),
            ]),
            r.0@ == DETAIL_INDENT@ + r.1@[0] + " "@ + r.1@[1] + " "@ + r.1@[2],
    {
        let p0 = paint(self.icons.bookmark, self.theme.teal);
        let p1 = paint(bookmark, self.theme.teal);
        let p2 = paint(mark, mark_color);
        let mut line = String::new();
        line.append(DETAIL_INDENT);
        line.append(p0.as_str());
        line.append(" ");
        line.append(p1.as_str());
        line.append(" ");
        line.append(p2.as_str());
        let ghost ps = seq![p0@, p1@, p2@];
        assert(line@ =~= DETAIL_INDENT@ + ps[0] + " "@ + ps[1] + " "@ + ps[2]);
        (line, Ghost(ps))
    }

    /// A bookmark line with a count after an arrow, and a word after the count.
    fn counted_bookmark_line(
        &self,
        bookmark: &str,
        arrow: &str,
        count: usize,
        count_color: Color,
        word: &str,
    ) -> (r: (String, Ghost<Seq<Seq<char>>>))
        ensures
            painted_all(r.1@, seq![
                (self.glyphs().bookmark@, self.palette().teal),
                (bookmark@, self.palette().teal),
                (arrow@ + decimal(count as nat), count_color),
                (word@, self.palette().overlay),
            ]),
            r.0@ == DETAIL_INDENT@ + r.1@[0] + " "@ + r.1@[1] + " "@ + r.1@[2] + " "@ + r.1@[3],
    {
        let mut mark = String::new();
        mark.append(arrow);
        push_decimal(&mut mark, count);
        let (mut line, Ghost(head)) = self.bookmark_line(bookmark, mark.as_str(), count_color);
        let p3 = paint(word, self.theme.overlay);
        line.append(" ");
        line.append(p3.as_str());
        let ghost ps = head.push(p3@);
        assert(line@ =~= DETAIL_INDENT@ + ps[0] + " "@ + ps[1] + " "@ + ps[2] + " "@ + ps[3]);
        (line, Ghost(ps))
    }

    /// Appends the line(s) that show `bookmark` and how it relates to its remote.
    pub fn render_sync_state(&self, lines: &mut Vec<String>, bookmark: &str, sync_state: &BookmarkSyncState)
        ensures
            exists|ps: Seq<Seq<char>>|
                #[trigger] painted_all(ps, self.sync_pieces(bookmark@, *sync_state)) && lines_view(final(lines)@)
                    == lines_view(old(lines)@) + self.sync_lines(bookmark@, *sync_state, ps),
    {
        let ghost old_view = lines_view(lines@);
        let ghost mut ps: Seq<Seq<char>> = seq![];
        match sync_state {
            BookmarkSyncState::NoBookmark => {
                // nothing to show: the caller only asks with a bookmark
            },
            BookmarkSyncState::LocalOnly => {
                let (line, Ghost(q)) = self.bookmark_line(bookmark, "(local only)", self.theme.overlay);
                Self::push_line(lines, line);
                proof { ps = q; }
            },
            BookmarkSyncState::Synced => {
                let (line, Ghost(q)) = self.bookmark_line(bookmark, "✓", self.theme.green);
                Self::push_line(lines, line);
                proof { ps = q; }
            },
            BookmarkSyncState::NeedsPush => {
                let (line, Ghost(q)) = self.bookmark_line(bookmark, "↑ needs push", self.theme.yellow);
                Self::push_line(lines, line);
                proof { ps = q; }
            },
            BookmarkSyncState::Ahead { count } => {
                let (line, Ghost(q)) = self.counted_bookmark_line(bookmark, "↑", *count, self.theme.green, "ahead");
                Self::push_line(lines, line);
                proof { ps = q; }
            },
            BookmarkSyncState::Behind { count } => {
                let (line, Ghost(q)) = self.counted_bookmark_line(bookmark, "↓", *count, self.theme.yellow, "behind");
                Self::push_line(lines, line);
                proof { ps = q; }
            },
            BookmarkSyncState::Diverged { local_ahead, remote_ahead, fork_point } => {
                let fork_id: &str = match fork_point {
                    Some(f) => f.as_str(),
                    None => "???",
                };
                let mut prefix = String::new();
                prefix.append(DETAIL_INDENT);
                prefix.append(self.icons.bookmark);
                prefix.append(" ");
                prefix.append(bookmark);
                prefix.append(" ───");
                let prefix_width = measure_text_width(prefix.as_str());
                let mut fork_indent = String::new();
                push_repeat(&mut fork_indent, " ", prefix_width);

                let mut local_chain = String::new();
                local_chain.append("╭──");
                push_chain(&mut local_chain, "●", *local_ahead);
                local_chain.append("    local (+");
                push_decimal(&mut local_chain, *local_ahead);
                local_chain.append(")");
                let p0 = paint(local_chain.as_str(), self.theme.green);
                let mut line0 = fork_indent.clone();
                line0.append(p0.as_str());
                Self::push_line(lines, line0);

                let p1 = paint(prefix.as_str(), self.theme.teal);
                let p2 = paint(fork_id, self.theme.overlay);
                let mut line1 = String::new();
                line1.append(p1.as_str());
                line1.append("○ ");
                line1.append(p2.as_str());
                Self::push_line(lines, line1);

                let mut remote_chain = String::new();
                remote_chain.append("╰──");
                push_chain(&mut remote_chain, "○", *remote_ahead);
                remote_chain.append("    origin (+");
                push_decimal(&mut remote_chain, *remote_ahead);
                remote_chain.append(") ⚠ diverged");
                let p3 = paint(remote_chain.as_str(), self.theme.red);
                let mut line2 = fork_indent.clone();
                line2.append(p3.as_str());
                Self::push_line(lines, line2);

                proof {
                    ps = seq![p0@, p1@, p2@, p3@];
                    assert(prefix@ =~= self.fork_prefix(bookmark@));
                    assert(local_chain@ =~= Self::local_arm(*local_ahead as nat));
                    assert(remote_chain@ =~= Self::remote_arm(*remote_ahead as nat));
                    assert(fork_id@ == Self::fork_label(*fork_point));
                }
            },
        }
        assert(painted_all(ps, self.sync_pieces(bookmark@, *sync_state)));
        assert(lines_view(lines@) =~= old_view + self.sync_lines(bookmark@, *sync_state, ps));
    }

    // ----- a change of the stack -----

    /// How many bytes of a change id the view shows: eight, or all of a shorter id.
    pub open spec fn id_cut(id: Seq<char>) -> int {
        let n = encode_utf8(id).len() as int;
        if n < 8 { n } else { 8 }
    }

    /// The change id as the view shows it: its first eight bytes.
    pub open spec fn short_id(id: Seq<char>) -> Seq<char> {
        decode_utf8(encode_utf8(id).take(Self::id_cut(id)))
    }

    /// The cut after eight bytes falls between two characters of the id
    /// (true of every id of ASCII characters, which jj's ids are).
    pub open spec fn id_cut_ok(id: Seq<char>) -> bool {
        is_char_boundary(encode_utf8(id), Self::id_cut(id))
    }

    /// The first line of a description; `(no description)` for an empty one.
    pub open spec fn description_text(description: Seq<char>) -> Seq<char> {
        match first_line(description) {
            Some(l) => l,
            None => "(no description)"@,
        }
    }

    /// The pieces of a change's main line: position marker, icon, short id,
    /// the `(empty)` marker for a change without file modifications, description.
    pub open spec fn head_pieces(&self, item: ChangeWithStatus, position: nat, total: nat) -> Seq<Piece> {
        let icon = if item.is_working { self.glyphs().working@ } else { self.glyphs().change@ };
        let icon_color = if item.is_working { self.palette().mauve } else { self.palette().text };
        seq![
            (decimal(position) + "/"@ + decimal(total), self.palette().overlay),
            (icon, icon_color),
            (Self::short_id(item.change.change_id@), self.palette().blue),
        ] + (if item.change.empty { seq![("(empty)"@, self.palette().overlay)] } else { seq![] })
            + seq![(Self::description_text(item.change.description@), self.palette().text)]
    }

    /// A change's main line, given the paintings of its pieces.
    pub open spec fn head_line(&self, item: ChangeWithStatus, ps: Seq<Seq<char>>) -> Seq<char> {
        if item.change.empty {
            "  "@ + ps[0] + " "@ + ps[1] + "  "@ + ps[2] + "  "@ + ps[3] + " "@ + ps[4]
        } else {
            "  "@ + ps[0] + " "@ + ps[1] + "  "@ + ps[2] + "  "@ + ps[3]
        }
    }

    /// All pieces that rendering a change paints, in order.
    pub open spec fn change_pieces(&self, item: ChangeWithStatus, position: nat, total: nat) -> Seq<Piece> {
        self.head_pieces(item, position, total) + self.bookmark_pieces(item)
    }

    /// The pieces of a change's bookmark line(s); none without a bookmark.
    pub open spec fn bookmark_pieces(&self, item: ChangeWithStatus) -> Seq<Piece> {
        match item.bookmark {
            Some(b) => self.sync_pieces(b@, item.sync_state),
            None => seq![],
        }
    }

    /// The lines of a change: its main line, its bookmark line(s) when it has a
    /// bookmark, and the status hint when there is one.
    pub open spec fn change_lines(
        &self,
        item: ChangeWithStatus,
        position: nat,
        total: nat,
        ps: Seq<Seq<char>>,
    ) -> Seq<Seq<char>> {
        let h = self.head_pieces(item, position, total).len() as int;
        seq![self.head_line(item, ps)] + match item.bookmark {
            Some(b) => self.sync_lines(b@, item.sync_state, ps.skip(h)),
            None => seq![],
        } + match self.status_text(item) {
            Some(t) => seq![DETAIL_INDENT@ + t],
            None => seq![],
        }
    }

    /// The main line of a change.
    fn change_head(&self, item: &ChangeWithStatus, position: usize, total: usize) -> (r: (String, Ghost<Seq<Seq<char>>>))
        requires
            Self::id_cut_ok(item.change.change_id@),
        ensures
            painted_all(r.1@, self.head_pieces(*item, position as nat, total as nat)),
            r.0@ == self.head_line(*item, r.1@),
    {
        let is_working = item.is_working;
        let icon = if is_working { self.icons.working } else { self.icons.change };
        let icon_color = if is_working { self.theme.mauve } else { self.theme.text };
        let p_icon = paint(icon, icon_color);

        let mut marker = String::new();
        push_decimal(&mut marker, position);
        marker.append("/");
        push_decimal(&mut marker, total);
        let p_marker = paint(marker.as_str(), self.theme.overlay);

        let id = item.change.change_id.as_str();
        let id_len = id.as_bytes().len();
        let cut = if id_len < 8 { id_len } else { 8 };
        let (short, _) = id.split_at(cut);
        proof {
            vstd::utf8::encode_utf8_decode_utf8(short@);
            assert(short@ == Self::short_id(item.change.change_id@));
        }
        let p_id = paint(short, self.theme.blue);

        let description = match first_line_of(item.change.description.as_str()) {
            Some(l) => l,
            None => "(no description)",
        };
        let p_desc = paint(description, self.theme.text);

        let mut line = String::new();
        line.append("  ");
        line.append(p_marker.as_str());
        line.append(" ");
        line.append(p_icon.as_str());
        line.append("  ");
        line.append(p_id.as_str());
        line.append("  ");
        if item.change.empty {
            let p_empty = paint("(empty)", self.theme.overlay);
            line.append(p_empty.as_str());
            line.append(" ");
            line.append(p_desc.as_str());
            let ghost ps = seq![p_marker@, p_icon@, p_id@, p_empty@, p_desc@];
            assert(painted_all(ps, self.head_pieces(*item, position as nat, total as nat)));
            assert(line@ =~= self.head_line(*item, ps));
            (line, Ghost(ps))
        } else {
            line.append(p_desc.as_str());
            let ghost ps = seq![p_marker@, p_icon@, p_id@, p_desc@];
            assert(painted_all(ps, self.head_pieces(*item, position as nat, total as nat)));
            assert(line@ =~= self.head_line(*item, ps));
            (line, Ghost(ps))
        }
    }

    /// Appends the lines of one change: its position in the stack out of
    /// `total` (1 is the change next to the trunk), icon, short id and
    /// description; then its bookmark with sync state, and the status hint.
    pub fn render_change(&self, lines: &mut Vec<String>, item: &ChangeWithStatus, position: usize, total: usize)
        requires
            Self::id_cut_ok(item.change.change_id@),
        ensures
            exists|ps: Seq<Seq<char>>|
                #[trigger] painted_all(ps, self.change_pieces(*item, position as nat, total as nat))
                    && lines_view(final(lines)@) == lines_view(old(lines)@) + self.change_lines(
                    *item,
                    position as nat,
                    total as nat,
                    ps,
                ),
    {
        let ghost old_view = lines_view(lines@);
        let ghost hp = self.head_pieces(*item, position as nat, total as nat);
        let (head, Ghost(ps_head)) = self.change_head(item, position, total);
        lines.push(head);
        let ghost after_head = lines_view(lines@);
        assert(after_head =~= old_view.push(self.head_line(*item, ps_head)));
        let ghost mut ps_sync: Seq<Seq<char>> = seq![];
        let ghost mut sync_view: Seq<Seq<char>> = seq![];
        if let Some(bookmark) = &item.bookmark {
            self.render_sync_state(lines, bookmark.as_str(), &item.sync_state);
            proof {
                ps_sync = choose|ps: Seq<Seq<char>>|
                    #[trigger] painted_all(ps, self.sync_pieces(bookmark@, item.sync_state))
                        && lines_view(lines@) == after_head + self.sync_lines(bookmark@, item.sync_state, ps);
                sync_view = self.sync_lines(bookmark@, item.sync_state, ps_sync);
            }
        }
        let ghost after_sync = lines_view(lines@);
        assert(after_sync == after_head + sync_view);
        if let Some(status_msg) = self.format_status(item) {
            let mut line = String::new();
            line.append(DETAIL_INDENT);
            line.append(status_msg.as_str());
            lines.push(line);
        }
        proof {
            let ps = ps_head + ps_sync;
            let sp = self.bookmark_pieces(*item);
            lemma_painted_all_concat(ps_head, hp, ps_sync, sp);
            assert(ps.skip(hp.len() as int) =~= ps_sync);
            assert(self.head_line(*item, ps) == self.head_line(*item, ps_head));
            assert(painted_all(ps, self.change_pieces(*item, position as nat, total as nat)));
            assert(lines_view(lines@) =~= old_view + self.change_lines(*item, position as nat, total as nat, ps));
        }
    }


    /// A change with a bookmark shows, below its main line, exactly the
    /// bookmark line(s) of its sync state, painted from the pieces that follow
    /// the main line's, and no status hint; the working copy too. A change
    /// without a bookmark shows, below its main line, the hint: the detail
    /// indent, the renderer's own lightbulb glyph and `ready to create PR`.
    pub proof fn change_shows_its_bookmark(&self, item: ChangeWithStatus, position: nat, total: nat, ps: Seq<Seq<char>>)
        ensures
            ({
                let head = self.head_pieces(item, position, total);
                match item.bookmark {
                    Some(b) => {
                        &&& self.change_pieces(item, position, total) == head + self.sync_pieces(b@, item.sync_state)
                        &&& self.change_lines(item, position, total, ps) == seq![self.head_line(item, ps)]
                            + self.sync_lines(b@, item.sync_state, ps.skip(head.len() as int))
                    },
                    None => {
                        &&& self.change_pieces(item, position, total) == head
                        &&& self.change_lines(item, position, total, ps) == seq![
                            self.head_line(item, ps),
                            DETAIL_INDENT@ + self.glyphs().lightbulb@ + " ready to create PR"@,
                        ]
                    },
                }
            }),
    {
        let head = self.head_pieces(item, position, total);
        match item.bookmark {
            Some(b) => {
                assert(self.change_pieces(item, position, total) =~= head + self.sync_pieces(b@, item.sync_state));
                assert(self.change_lines(item, position, total, ps) =~= seq![self.head_line(item, ps)]
                    + self.sync_lines(b@, item.sync_state, ps.skip(head.len() as int)));
            },
            None => {
                assert(self.change_pieces(item, position, total) =~= head);
                assert(DETAIL_INDENT@ + (self.glyphs().lightbulb@ + " ready to create PR"@) =~= DETAIL_INDENT@
                    + self.glyphs().lightbulb@ + " ready to create PR"@);
                assert(self.change_lines(item, position, total, ps) =~= seq![
                    self.head_line(item, ps),
                    DETAIL_INDENT@ + self.glyphs().lightbulb@ + " ready to create PR"@,
                ]);
            },
        }
    }

    /// The rows draw with the renderer's own icon set and theme. Without
    /// colour, a connector is the icon indent and the pipe glyph (painted
    /// overlay), and the trunk line the icon indent, the main glyph, two
    /// spaces and the trunk's name (both blue). A change's main line starts
    /// with two spaces, its position `p/t` (overlay), a space and its icon:
    /// the working-copy glyph in mauve for the working copy, the change glyph
    /// in the text colour for any other change; then its short id in blue.
    pub proof fn rows_draw_with_the_icon_set(&self, item: ChangeWithStatus, position: nat, total: nat, main_ref: Seq<char>)
        ensures
            self.connection_pieces() == seq![(self.glyphs().pipe@, self.palette().overlay)],
            self.connection_line(plain(self.connection_pieces())) == ICON_INDENT@ + self.glyphs().pipe@,
            self.main_pieces(main_ref) == seq![
                (self.glyphs().main@, self.palette().blue),
                (main_ref, self.palette().blue),
            ],
            self.main_line(plain(self.main_pieces(main_ref))) == ICON_INDENT@ + self.glyphs().main@ + "  "@ + main_ref,
            ({
                let head = self.head_pieces(item, position, total);
                let icon = if item.is_working {
                    (self.glyphs().working@, self.palette().mauve)
                } else {
                    (self.glyphs().change@, self.palette().text)
                };
                &&& head[0] == (decimal(position) + "/"@ + decimal(total), self.palette().overlay)
                &&& head[1] == icon
                &&& head[2] == (Self::short_id(item.change.change_id@), self.palette().blue)
                &&& ("  "@ + decimal(position) + "/"@ + decimal(total) + " "@ + icon.0 + "  "@ + Self::short_id(
                    item.change.change_id@,
                )).is_prefix_of(self.head_line(item, plain(head)))
            }),
    {
        let head = self.head_pieces(item, position, total);
        let q = plain(head);
        let start = "  "@ + q[0] + " "@ + q[1] + "  "@ + q[2];
        if item.change.empty {
            assert(self.head_line(item, q) =~= start + ("  "@ + q[3] + " "@ + q[4]));
        } else {
            assert(self.head_line(item, q) =~= start + ("  "@ + q[3]));
        }
        assert(start =~= "  "@ + decimal(position) + "/"@ + decimal(total) + " "@ + q[1] + "  "@ + q[2]);
    }

    /// The status hint is there exactly for a change without a bookmark, and
    /// then it is the renderer's own lightbulb glyph and ` ready to create PR`.
    pub proof fn status_hint_uses_the_lightbulb(&self, item: ChangeWithStatus)
        ensures
            item.bookmark.is_none() ==> self.status_text(item) == Some(
                self.glyphs().lightbulb@ + " ready to create PR"@,
            ),
            item.bookmark.is_some() ==> self.status_text(item).is_none(),
    {
    }

    // ----- the command suggestions below the box -----

    /// Some change of the stack other than the working copy has no bookmark yet.
    pub open spec fn needs_bookmark(changes: Seq<ChangeWithStatus>) -> bool {
        exists|i: int| 0 <= i < changes.len() && (#[trigger] changes[i]).bookmark.is_none() && !changes[i].is_working
    }

    /// The pieces of the suggestions: `jf push` when some change still needs a
    /// bookmark, then always `jf pull`; each command with its explanation.
    pub open spec fn suggestion_pieces(&self, changes: Seq<ChangeWithStatus>) -> Seq<Piece> {
        (if Self::needs_bookmark(changes) {
            seq![("jf push"@, self.palette().text), ("push stack to GitHub"@, self.palette().overlay)]
        } else {
            seq![]
        }) + seq![("jf pull"@, self.palette().text), ("update from remote"@, self.palette().overlay)]
    }

    /// The suggestion lines: flat, two spaces in, command, two spaces, explanation.
    pub open spec fn suggestion_layout(&self, changes: Seq<ChangeWithStatus>, ps: Seq<Seq<char>>) -> Seq<Seq<char>> {
        if Self::needs_bookmark(changes) {
            seq!["  "@ + ps[0] + "  "@ + ps[1], "  "@ + ps[2] + "  "@ + ps[3]]
        } else {
            seq!["  "@ + ps[0] + "  "@ + ps[1]]
        }
    }

    /// With colouring off, every suggestion line is flat and left-aligned:
    /// it starts with two spaces and a `jf` command, with no icon before it;
    /// and `jf pull` always comes last.
    pub proof fn suggestions_are_flat_commands(&self, changes: Seq<ChangeWithStatus>)
        ensures
            ({
                let lines = self.suggestion_layout(changes, plain(self.suggestion_pieces(changes)));
                &&& lines.len() >= 1
                &&& forall|i: int| 0 <= i < lines.len() ==> "  jf "@.is_prefix_of(#[trigger] lines[i])
                &&& lines.last() == "  jf pull  update from remote"@
            }),
    {
        reveal_strlit("  jf ");
        reveal_strlit("  ");
        reveal_strlit("jf push");
        reveal_strlit("jf pull");
        reveal_strlit("push stack to GitHub");
        reveal_strlit("update from remote");
        reveal_strlit("  jf pull  update from remote");
        let ps = plain(self.suggestion_pieces(changes));
        let lines = self.suggestion_layout(changes, ps);
        assert("  "@ + "jf pull"@ + "  "@ + "update from remote"@ =~= "  jf pull  update from remote"@);
        assert forall|i: int| 0 <= i < lines.len() implies "  jf "@.is_prefix_of(#[trigger] lines[i]) by {
            assert("  jf "@ =~= ("  "@ + "jf push"@).take(5));
            assert("  jf "@ =~= ("  "@ + "jf pull"@).take(5));
        }
    }

    /// The suggestions do not depend on the order of the stack: two stacks
    /// with the same changes, in any order, get the same pieces and, painted
    /// alike, the same lines.
    pub proof fn suggestions_ignore_order(&self, changes: Seq<ChangeWithStatus>, reordered: Seq<ChangeWithStatus>, ps: Seq<Seq<char>>)
        requires
            reordered.to_multiset() == changes.to_multiset(),
        ensures
            self.suggestion_pieces(reordered) == self.suggestion_pieces(changes),
            self.suggestion_layout(reordered, ps) == self.suggestion_layout(changes, ps),
    {
        broadcast use vstd::seq_lib::group_to_multiset_ensures;
        assert(Self::needs_bookmark(changes) ==> Self::needs_bookmark(reordered)) by {
            if Self::needs_bookmark(changes) {
                let i = choose|i: int| 0 <= i < changes.len() && (#[trigger] changes[i]).bookmark.is_none() && !changes[i].is_working;
                assert(changes.contains(changes[i]));
                assert(reordered.to_multiset().count(changes[i]) > 0);
                assert(reordered.contains(changes[i]));
                let j = choose|j: int| 0 <= j < reordered.len() && reordered[j] == changes[i];
                assert(reordered[j].bookmark.is_none() && !reordered[j].is_working);
            }
        }
        assert(Self::needs_bookmark(reordered) ==> Self::needs_bookmark(changes)) by {
            if Self::needs_bookmark(reordered) {
                let i = choose|i: int| 0 <= i < reordered.len() && (#[trigger] reordered[i]).bookmark.is_none() && !reordered[i].is_working;
                assert(reordered.contains(reordered[i]));
                assert(changes.to_multiset().count(reordered[i]) > 0);
                assert(changes.contains(reordered[i]));
                let j = choose|j: int| 0 <= j < changes.len() && changes[j] == reordered[i];
                assert(changes[j].bookmark.is_none() && !changes[j].is_working);
            }
        }
    }

    /// One suggestion line.
    fn suggestion(&self, command: &str, explanation: &str) -> (r: (String, Ghost<Seq<Seq<char>>>))
        ensures
            painted_all(r.1@, seq![(command@, self.palette().text), (explanation@, self.palette().overlay)]),
            r.0@ == "  "@ + r.1@[0] + "  "@ + r.1@[1],
    {
        let p0 = paint(command, self.theme.text);
        let p1 = paint(explanation, self.theme.overlay);
        let mut line = String::new();
        line.append("  ");
        line.append(p0.as_str());
        line.append("  ");
        line.append(p1.as_str());
        let ghost ps = seq![p0@, p1@];
        assert(line@ =~= "  "@ + ps[0] + "  "@ + ps[1]);
        (line, Ghost(ps))
    }

    /// Command suggestions: flat, icon-free, left-aligned lines.
    pub fn suggestion_lines(&self, changes: &[ChangeWithStatus]) -> (r: Vec<String>)
        ensures
            exists|ps: Seq<Seq<char>>|
                #[trigger] painted_all(ps, self.suggestion_pieces(changes@)) && lines_view(r@)
                    == self.suggestion_layout(changes@, ps),
    {
        let mut suggestions: Vec<String> = Vec::new();
        let mut needs_bookmark = false;
        let mut i: usize = 0;
        while i < changes.len()
            invariant
                i <= changes@.len(),
                needs_bookmark == exists|j: int|
                    0 <= j < i && (#[trigger] changes@[j]).bookmark.is_none() && !changes@[j].is_working,
            decreases changes.len() - i,
        {
            if changes[i].bookmark.is_none() && !changes[i].is_working {
                needs_bookmark = true;
            }
            i = i + 1;
        }
        assert(needs_bookmark == Self::needs_bookmark(changes@));
        let ghost mut ps: Seq<Seq<char>> = seq![];
        if needs_bookmark {
            let (line, Ghost(q)) = self.suggestion("jf push", "push stack to GitHub");
            suggestions.push(line);
            proof {
                ps = q;
            }
        }
        let (line, Ghost(q)) = self.suggestion("jf pull", "update from remote");
        suggestions.push(line);
        proof {
            let head: Seq<Piece> = if needs_bookmark {
                seq![("jf push"@, self.palette().text), ("push stack to GitHub"@, self.palette().overlay)]
            } else {
                seq![]
            };
            lemma_painted_all_concat(ps, head, q, seq![("jf pull"@, self.palette().text), ("update from remote"@, self.palette().overlay)]);
            ps = ps + q;
            assert(painted_all(ps, self.suggestion_pieces(changes@)));
            assert(lines_view(suggestions@) =~= self.suggestion_layout(changes@, ps));
        }
        suggestions
    }

    /// The bottom edge of the box is two corners around `inner_width` strokes.
    pub proof fn bottom_line_len(inner_width: nat)
        ensures
            Self::bottom_line(inner_width).len() == inner_width + 2,
            Self::bottom_line(inner_width)[0] == '╰',
            Self::bottom_line(inner_width).last() == '╯',
            forall|i: int| 1 <= i <= inner_width ==> #[trigger] Self::bottom_line(inner_width)[i] == '─',
    {
        reveal_strlit("╰");
        reveal_strlit("╯");
        reveal_strlit("─");
        repeat_len("─"@, inner_width);
        assert("─"@ =~= seq!['─']);
        assert forall|i: int| 0 <= i < inner_width implies #[trigger] repeat("─"@, inner_width)[i] == '─' by {
            lemma_repeat_char('─', inner_width, i);
        }
        let b = Self::bottom_line(inner_width);
        assert forall|i: int| 1 <= i <= inner_width implies #[trigger] b[i] == '─' by {
            assert(b[i] == repeat("─"@, inner_width)[i - 1]);
        }
    }

    // ----- the top edge of the box -----

    /// The title as the top edge shows it, with a space on each side.
    pub open spec fn padded_title(title: Seq<char>) -> Seq<char> {
        " "@ + title + " "@
    }

    /// The columns of the top edge left of the title and right of it: of the
    /// room that the padded title leaves (none when it does not fit), one
    /// stroke stands left of the title and the rest right of it.
    pub open spec fn dash_split(title: Seq<char>, inner_width: nat) -> (nat, nat) {
        let tw = text_width(Self::padded_title(title));
        let remaining: nat = if inner_width >= tw { (inner_width - tw) as nat } else { 0 };
        let left: nat = if remaining >= 1 { 1 } else { 0 };
        (left, (remaining - left) as nat)
    }

    /// The top edge paints the padded title.
    pub open spec fn top_pieces(&self, title: Seq<char>) -> Seq<Piece> {
        seq![(Self::padded_title(title), self.palette().text)]
    }

    /// The top edge: a corner, the left strokes, the painted padded title,
    /// the right strokes, a corner.
    pub open spec fn top_layout(title: Seq<char>, inner_width: nat, ps: Seq<Seq<char>>) -> Seq<char> {
        let (left, right) = Self::dash_split(title, inner_width);
        "╭"@ + repeat("─"@, left) + ps[0] + repeat("─"@, right) + "╮"@
    }

    /// The top edge of a box with `inner_width` columns inside, the title
    /// one stroke in from the left corner: `╭─ title ───…╮`.
    pub fn box_top_line(&self, title: &str, inner_width: usize) -> (r: String)
        ensures
            exists|ps: Seq<Seq<char>>|
                #[trigger] painted_all(ps, self.top_pieces(title@)) && r@ == Self::top_layout(
                    title@,
                    inner_width as nat,
                    ps,
                ),
            inner_width >= text_width(Self::padded_title(title@)) ==> Self::dash_split(title@, inner_width as nat).0
                + Self::dash_split(title@, inner_width as nat).1 + text_width(Self::padded_title(title@))
                == inner_width,
            inner_width > text_width(Self::padded_title(title@)) ==> Self::dash_split(title@, inner_width as nat).0
                == 1,
            // uncoloured, an edge with a title of printable ASCII and box drawing
            // measures the inner width and the two corners
            narrow_text(title@) && inner_width >= title@.len() + 2 && r@ == Self::top_layout(
                title@,
                inner_width as nat,
                seq![Self::padded_title(title@)],
            ) ==> text_width(r@) == inner_width + 2,
    {
        let mut title_with_padding = String::new();
        title_with_padding.append(" ");
        title_with_padding.append(title);
        title_with_padding.append(" ");
        let title_len = measure_text_width(title_with_padding.as_str());
        let remaining = inner_width.saturating_sub(title_len);
        let left_padding: usize = if remaining >= 1 { 1 } else { 0 };
        let right_padding = remaining - left_padding;
        let p = paint(title_with_padding.as_str(), self.theme.text);
        let mut line = String::new();
        line.append("╭");
        push_repeat(&mut line, "─", left_padding);
        line.append(p.as_str());
        push_repeat(&mut line, "─", right_padding);
        line.append("╮");
        proof {
            let ps = seq![p@];
            assert(title_with_padding@ =~= Self::padded_title(title@));
            assert(painted_all(ps, self.top_pieces(title@)));
            assert(line@ =~= Self::top_layout(title@, inner_width as nat, ps));
        }
        // the display width of the edge, for the contract
        let width = measure_text_width(line.as_str());
        proof {
            let padded = Self::padded_title(title@);
            if narrow_text(title@) && inner_width >= title@.len() + 2 && line@ == Self::top_layout(
                title@,
                inner_width as nat,
                seq![padded],
            ) {
                lemma_box_glyphs_narrow();
                reveal_strlit(" ");
                reveal_strlit("─");
                reveal_strlit("╭");
                reveal_strlit("╮");
                lemma_narrow_concat(" "@, title@);
                lemma_narrow_concat(" "@ + title@, " "@);
                assert(title_len == padded.len());
                lemma_narrow_repeat("─"@, left_padding as nat);
                lemma_narrow_repeat("─"@, right_padding as nat);
                repeat_len("─"@, left_padding as nat);
                repeat_len("─"@, right_padding as nat);
                let a = "╭"@ + repeat("─"@, left_padding as nat);
                lemma_narrow_concat("╭"@, repeat("─"@, left_padding as nat));
                lemma_narrow_concat(a, padded);
                lemma_narrow_concat(a + padded, repeat("─"@, right_padding as nat));
                lemma_narrow_concat(a + padded + repeat("─"@, right_padding as nat), "╮"@);
                assert(line@ =~= a + padded + repeat("─"@, right_padding as nat) + "╮"@);
                assert(line@.len() == inner_width + 2);
            }
        }
        line
    }

    // ----- the width of the box -----

    /// The widest of the lines, as `console` measures them; 0 for no lines.
    pub open spec fn widest(lines: Seq<Seq<char>>) -> nat
        decreases lines.len(),
    {
        if lines.len() == 0 {
            0
        } else {
            let rest = Self::widest(lines.drop_last());
            let w = text_width(lines.last());
            if w > rest { w } else { rest }
        }
    }

    /// The inner width of the box: the widest line plus a margin of two, the
    /// padded title with eight columns of edge to spare, and at least forty.
    pub open spec fn box_inner_width(lines: Seq<Seq<char>>, title: Seq<char>) -> nat {
        let content = Self::widest(lines) + 2;
        let for_title = text_width(title) + 2 + 8;
        let w = if content > for_title { content } else { for_title };
        if w > 40 { w } else { 40 }
    }

    /// Every line, and the title, leave room in a `usize` for the margins
    /// that the box adds.
    pub open spec fn widths_fit(lines: Seq<Seq<char>>, title: Seq<char>) -> bool {
        &&& forall|i: int| 0 <= i < lines.len() ==> text_width(#[trigger] lines[i]) + 2 <= usize::MAX
        &&& text_width(title) + 10 <= usize::MAX
    }

    proof fn lemma_widest(lines: Seq<Seq<char>>)
        ensures
            forall|i: int| 0 <= i < lines.len() ==> text_width(#[trigger] lines[i]) <= Self::widest(lines),
            lines.len() == 0 ==> Self::widest(lines) == 0,
            lines.len() > 0 ==> exists|i: int| 0 <= i < lines.len() && text_width(#[trigger] lines[i]) == Self::widest(lines),
        decreases lines.len(),
    {
        if lines.len() > 0 {
            let rest = lines.drop_last();
            Self::lemma_widest(rest);
            assert forall|i: int| 0 <= i < lines.len() implies text_width(#[trigger] lines[i]) <= Self::widest(lines) by {
                if i < rest.len() {
                    assert(lines[i] == rest[i]);
                }
            }
            if rest.len() > 0 {
                let j = choose|j: int| 0 <= j < rest.len() && text_width(#[trigger] rest[j]) == Self::widest(rest);
                assert(lines[j] == rest[j]);
            }
            assert(lines[lines.len() - 1] == lines.last());
        }
    }

    /// The box is wide enough for every line with a margin of two columns,
    /// for the padded title with eight columns of edge, and at least forty
    /// columns; and it is no wider than the widest of these needs.
    pub proof fn box_covers_every_line(lines: Seq<Seq<char>>, title: Seq<char>)
        ensures
            forall|i: int| 0 <= i < lines.len() ==> Self::box_inner_width(lines, title) >= text_width(#[trigger] lines[i]) + 2,
            Self::box_inner_width(lines, title) >= text_width(title) + 10,
            Self::box_inner_width(lines, title) >= 40,
            Self::box_inner_width(lines, title) == 40
                || Self::box_inner_width(lines, title) == text_width(title) + 10
                || exists|i: int| 0 <= i < lines.len() && Self::box_inner_width(lines, title) == text_width(#[trigger] lines[i]) + 2,
    {
        Self::lemma_widest(lines);
    }

    /// Adding lines or widening the title never narrows the box.
    pub proof fn box_never_narrows(
        lines: Seq<Seq<char>>,
        title: Seq<char>,
        more_lines: Seq<Seq<char>>,
        wider_title: Seq<char>,
    )
        requires
            forall|i: int| 0 <= i < lines.len() ==> more_lines.contains(#[trigger] lines[i]),
            text_width(title) <= text_width(wider_title),
        ensures
            Self::box_inner_width(lines, title) <= Self::box_inner_width(more_lines, wider_title),
    {
        Self::lemma_widest(lines);
        Self::lemma_widest(more_lines);
        if lines.len() > 0 {
            let j = choose|j: int| 0 <= j < lines.len() && text_width(#[trigger] lines[j]) == Self::widest(lines);
            assert(more_lines.contains(lines[j]));
            let k = choose|k: int| 0 <= k < more_lines.len() && more_lines[k] == lines[j];
            assert(text_width(more_lines[k]) <= Self::widest(more_lines));
        }
    }

    /// The inner width of the box: wide enough for the longest content line
    /// (plus a small right margin) and the title, with a sane floor.
    pub fn inner_width_for(lines: &[String], title: &str) -> (w: usize)
        requires
            Self::widths_fit(lines_view(lines@), title@),
        ensures
            w == Self::box_inner_width(lines_view(lines@), title@),
            forall|i: int| 0 <= i < lines@.len() ==> w >= text_width(#[trigger] lines@[i]@) + 2,
            w >= text_width(title@) + 10,
            w >= 40,
    {
        let ghost view = lines_view(lines@);
        let mut content_width: usize = 0;
        let mut i: usize = 0;
        while i < lines.len()
            invariant
                i <= lines@.len(),
                view == lines_view(lines@),
                Self::widths_fit(view, title@),
                content_width == Self::widest(view.take(i as int)),
            decreases lines.len() - i,
        {
            let w = measure_text_width(lines[i].as_str());
            proof {
                assert(view.take(i + 1).drop_last() =~= view.take(i as int));
                assert(view.take(i + 1).last() == view[i as int]);
            }
            if w > content_width {
                content_width = w;
            }
            i = i + 1;
        }
        proof {
            assert(view.take(lines@.len() as int) =~= view);
            Self::lemma_widest(view);
            if lines@.len() > 0 {
                let j = choose|j: int| 0 <= j < view.len() && text_width(#[trigger] view[j]) == Self::widest(view);
                assert(text_width(view[j]) + 2 <= usize::MAX);
            }
            assert forall|k: int| 0 <= k < lines@.len() implies text_width(#[trigger] lines@[k]@) <= Self::widest(view) by {
                assert(view[k] == lines@[k]@);
            }
        }
        let title_width = measure_text_width(title) + 2;
        let a = content_width + 2;
        let b = title_width + 8;
        let m = if a > b { a } else { b };
        if m > 40 { m } else { 40 }
    }

    // ----- one-line messages -----

    /// An icon and a message, each painted, with a space between.
    fn message(&self, icon: &str, icon_color: Color, message: &str, message_color: Option<Color>) -> (r: (
        String,
        Ghost<Seq<Seq<char>>>,
    ))
        ensures
            painted(r.1@[0], icon@, icon_color),
            match message_color {
                Some(c) => painted(r.1@[1], message@, c),
                None => r.1@[1] == message@,
            },
            r.1@.len() == 2,
            r.0@ == r.1@[0] + " "@ + r.1@[1],
    {
        let p0 = paint(icon, icon_color);
        let p1 = match message_color {
            Some(c) => paint(message, c),
            None => {
                let mut m = String::new();
                m.append(message);
                m
            },
        };
        let mut line = String::new();
        line.append(p0.as_str());
        line.append(" ");
        line.append(p1.as_str());
        let ghost ps = seq![p0@, p1@];
        (line, Ghost(ps))
    }

    /// The line of an error message: the error icon and the message, both red.
    pub fn error_line(&self, message: &str) -> (r: String)
        ensures
            exists|a: Seq<char>, b: Seq<char>|
                #![trigger painted(a, self.glyphs().error@, self.palette().red), painted(b, message@, self.palette().red)]
                painted(a, self.glyphs().error@, self.palette().red) && painted(b, message@, self.palette().red)
                    && r@ == a + " "@ + b,
    {
        let (line, Ghost(ps)) = self.message(self.icons.error, self.theme.red, message, Some(self.theme.red));
        assert(painted(ps[0], self.glyphs().error@, self.palette().red) && painted(ps[1], message@, self.palette().red));
        line
    }

    /// The line of a success message: the approval icon and the message, both green.
    pub fn success_line(&self, message: &str) -> (r: String)
        ensures
            exists|a: Seq<char>, b: Seq<char>|
                #![trigger painted(a, self.glyphs().pr_approved@, self.palette().green), painted(b, message@, self.palette().green)]
                painted(a, self.glyphs().pr_approved@, self.palette().green) && painted(b, message@, self.palette().green)
                    && r@ == a + " "@ + b,
    {
        let (line, Ghost(ps)) = self.message(self.icons.pr_approved, self.theme.green, message, Some(self.theme.green));
        assert(painted(ps[0], self.glyphs().pr_approved@, self.palette().green) && painted(ps[1], message@, self.palette().green));
        line
    }

    /// The line of an informational message: the info icon in blue, the message as it is.
    pub fn info_line(&self, message: &str) -> (r: String)
        ensures
            exists|a: Seq<char>| #[trigger] painted(a, self.glyphs().info@, self.palette().blue) && r@ == a + " "@ + message@,
    {
        let (line, Ghost(ps)) = self.message(self.icons.info, self.theme.blue, message, None);
        assert(painted(ps[0], self.glyphs().info@, self.palette().blue));
        line
    }


    // ----- the whole stack view -----

    /// The title of the box: `Your Stack (N commits)`, or `Your Stack` for an empty stack.
    pub open spec fn stack_title(n: nat) -> Seq<char> {
        "Your Stack"@ + (if n > 0 { " ("@ + decimal(n) + " commits)"@ } else { seq![] })
    }

    /// The pieces of the `i`-th change of the stack and of the connector below it.
    pub open spec fn block_pieces(&self, changes: Seq<ChangeWithStatus>, i: int) -> Seq<Piece> {
        let n = changes.len();
        self.change_pieces(changes[i], (n - i) as nat, n) + self.connection_pieces()
    }

    /// The pieces of the first `k` changes of the stack, each with its connector.
    pub open spec fn blocks_pieces(&self, changes: Seq<ChangeWithStatus>, k: nat) -> Seq<Piece>
        decreases k,
    {
        if k == 0 {
            seq![]
        } else {
            self.blocks_pieces(changes, (k - 1) as nat) + self.block_pieces(changes, k - 1)
        }
    }

    /// The lines of the `i`-th change of the stack (the topmost first), at
    /// position `n - i`, followed by a connector line.
    pub open spec fn block_lines(&self, changes: Seq<ChangeWithStatus>, i: int, ps: Seq<Seq<char>>) -> Seq<Seq<char>> {
        let n = changes.len();
        let c = self.change_pieces(changes[i], (n - i) as nat, n).len() as int;
        self.change_lines(changes[i], (n - i) as nat, n, ps.take(c)) + seq![self.connection_line(ps.skip(c))]
    }

    /// The lines of the first `k` changes of the stack.
    pub open spec fn blocks_lines(&self, changes: Seq<ChangeWithStatus>, k: nat, ps: Seq<Seq<char>>) -> Seq<Seq<char>>
        decreases k,
    {
        if k == 0 {
            seq![]
        } else {
            let m = self.blocks_pieces(changes, (k - 1) as nat).len() as int;
            self.blocks_lines(changes, (k - 1) as nat, ps.take(m)) + self.block_lines(changes, k - 1, ps.skip(m))
        }
    }

    /// The title holds printable ASCII alone.
    proof fn lemma_title_narrow(n: nat)
        ensures
            narrow_text(Self::stack_title(n)),
    {
        reveal_strlit("Your Stack");
        reveal_strlit(" (");
        reveal_strlit(" commits)");
        let head = "Your Stack"@;
        assert(narrow_text(head));
        if n > 0 {
            decimal_reads_back(n);
            let d = decimal(n);
            assert(narrow_text(d)) by {
                assert(all_digits(d));
            }
            assert(narrow_text(" ("@));
            assert(narrow_text(" commits)"@));
            lemma_narrow_concat(" ("@, d);
            lemma_narrow_concat(" ("@ + d, " commits)"@);
            lemma_narrow_concat(head, " ("@ + d + " commits)"@);
        } else {
            assert(Self::stack_title(n) =~= head);
        }
    }

    /// The box is titled with the number of changes: a stack of `n >= 1`
    /// changes is `Your Stack (n commits)`, and only the empty stack is
    /// `Your Stack` alone. Without colour, the top edge of the stack view
    /// carries that title between its strokes, one space on each side.
    pub proof fn title_counts_the_changes(&self, changes: Seq<ChangeWithStatus>, body: Seq<Seq<char>>)
        ensures
            changes.len() > 0 ==> Self::stack_title(changes.len()) == "Your Stack ("@ + decimal(changes.len())
                + " commits)"@,
            changes.len() > 0 ==> Self::stack_title(changes.len()).len() == 21 + decimal(changes.len()).len(),
            changes.len() == 0 ==> Self::stack_title(changes.len()) == "Your Stack"@,
            ({
                let title = Self::stack_title(changes.len());
                let inner = Self::box_inner_width(body, title);
                let split = Self::dash_split(title, inner);
                self.frame_layout(changes, body, plain(self.frame_pieces(changes)))[1] == "╭"@ + repeat(
                    "─"@,
                    split.0,
                ) + " "@ + title + " "@ + repeat("─"@, split.1) + "╮"@
            }),
    {
        reveal_strlit("Your Stack");
        reveal_strlit("Your Stack (");
        reveal_strlit(" (");
        reveal_strlit(" commits)");
        let n = changes.len();
        if n > 0 {
            assert(Self::stack_title(n) =~= "Your Stack ("@ + decimal(n) + " commits)"@);
        } else {
            assert(Self::stack_title(n) =~= "Your Stack"@);
        }
        let title = Self::stack_title(n);
        let pieces = self.frame_pieces(changes);
        let q = plain(pieces);
        assert(q.take(1) =~= seq![Self::padded_title(title)]);
    }

    /// The pieces of the box's content.
    pub open spec fn body_pieces(&self, changes: Seq<ChangeWithStatus>, main_ref: Seq<char>) -> Seq<Piece> {
        self.blocks_pieces(changes, changes.len()) + self.main_pieces(main_ref)
    }

    /// The content of the box: every change from the head down, a connector
    /// below each, and the trunk line; for an empty stack a note that all work
    /// is integrated, and the trunk line.
    pub open spec fn body_lines(&self, changes: Seq<ChangeWithStatus>, main_ref: Seq<char>, ps: Seq<Seq<char>>) -> Seq<Seq<char>> {
        let m = self.blocks_pieces(changes, changes.len()).len() as int;
        (if changes.len() == 0 {
            seq!["  No changes in stack"@, "  (All work is integrated into "@ + main_ref + ")"@]
        } else {
            self.blocks_lines(changes, changes.len(), ps.take(m))
        }) + seq![self.main_line(ps.skip(m))]
    }

    /// All pieces of the stack view, in the order in which they are painted.
    pub open spec fn report_pieces(&self, changes: Seq<ChangeWithStatus>, main_ref: Seq<char>) -> Seq<Piece> {
        self.body_pieces(changes, main_ref) + self.frame_pieces(changes)
    }

    /// The stack view around given content lines: a blank line, the top edge
    /// with the title, then inside the side borders a spacer, the content
    /// lines and a spacer, then the bottom edge, a blank line, the
    /// suggestions and a blank line. The box is as wide as `box_inner_width`
    /// makes it for the content and the title; `ps` paints the title and then
    /// the suggestions.
    pub open spec fn frame_layout(&self, changes: Seq<ChangeWithStatus>, body: Seq<Seq<char>>, ps: Seq<Seq<char>>) -> Seq<Seq<char>> {
        let title = Self::stack_title(changes.len());
        let inner = Self::box_inner_width(body, title);
        seq![seq![], Self::top_layout(title, inner, ps.take(1)), Self::spacer_line(inner)] + Self::bordered_lines(
            body,
            inner,
        ) + seq![Self::spacer_line(inner), Self::bottom_line(inner), seq![]] + self.suggestion_layout(
            changes,
            ps.skip(1),
        ) + seq![seq![]]
    }

    /// A content line between the side borders of a box with `inner_width`
    /// columns inside: padded with spaces to the right border.
    pub open spec fn bordered(line: Seq<char>, inner_width: nat) -> Seq<char> {
        "│"@ + line + repeat(" "@, (inner_width - text_width(line)) as nat) + "│"@
    }

    /// An empty line between the side borders.
    pub open spec fn spacer_line(inner_width: nat) -> Seq<char> {
        "│"@ + repeat(" "@, inner_width) + "│"@
    }

    /// Every content line between the side borders.
    pub open spec fn bordered_lines(lines: Seq<Seq<char>>, inner_width: nat) -> Seq<Seq<char>> {
        lines.map_values(|l: Seq<char>| Self::bordered(l, inner_width))
    }

    /// A content line between the side borders.
    fn border_line(line: &str, inner_width: usize) -> (r: String)
        requires
            text_width(line@) <= inner_width,
        ensures
            r@ == Self::bordered(line@, inner_width as nat),
    {
        let w = measure_text_width(line);
        let mut out = String::new();
        out.append("│");
        out.append(line);
        push_repeat(&mut out, " ", inner_width - w);
        out.append("│");
        assert(out@ =~= Self::bordered(line@, inner_width as nat));
        out
    }

    /// An empty line between the side borders.
    fn spacer(inner_width: usize) -> (r: String)
        ensures
            r@ == Self::spacer_line(inner_width as nat),
            text_width(r@) == inner_width + 2,
    {
        let mut out = String::new();
        out.append("│");
        push_repeat(&mut out, " ", inner_width);
        out.append("│");
        assert(out@ =~= Self::spacer_line(inner_width as nat));
        proof {
            lemma_box_glyphs_narrow();
            repeat_len(" "@, inner_width as nat);
            lemma_narrow_repeat(" "@, inner_width as nat);
            lemma_narrow_concat("│"@, repeat(" "@, inner_width as nat));
            lemma_narrow_concat("│"@ + repeat(" "@, inner_width as nat), "│"@);
            reveal_strlit("│");
            reveal_strlit(" ");
            assert(out@.len() == inner_width + 2);
        }
        // the display width of the spacer, for the contract
        let _width = measure_text_width(out.as_str());
        out
    }

    /// The pieces that framing the content paints: the title, then the suggestions.
    pub open spec fn frame_pieces(&self, changes: Seq<ChangeWithStatus>) -> Seq<Piece> {
        self.top_pieces(Self::stack_title(changes.len())) + self.suggestion_pieces(changes)
    }

    /// The whole stack view, given the paintings of all its pieces.
    pub open spec fn report_lines(&self, changes: Seq<ChangeWithStatus>, main_ref: Seq<char>, ps: Seq<Seq<char>>) -> Seq<Seq<char>> {
        let b = self.body_pieces(changes, main_ref).len() as int;
        self.frame_layout(changes, self.body_lines(changes, main_ref, ps.take(b)), ps.skip(b))
    }

    /// Every change id of the stack can be cut after eight bytes.
    pub open spec fn ids_cut_ok(changes: Seq<ChangeWithStatus>) -> bool {
        forall|i: int| 0 <= i < changes.len() ==> Self::id_cut_ok(#[trigger] changes[i].change.change_id@)
    }

    /// Appends every line of `more`.
    fn append_lines(out: &mut Vec<String>, more: Vec<String>)
        ensures
            lines_view(final(out)@) == lines_view(old(out)@) + lines_view(more@),
    {
        let ghost added = more@;
        let mut more = more;
        out.append(&mut more);
        assert(lines_view(out@) =~= lines_view(old(out)@) + lines_view(added));
    }

    /// Appends a line.
    fn push_line(out: &mut Vec<String>, line: String)
        ensures
            lines_view(final(out)@) == lines_view(old(out)@).push(line@),
    {
        let ghost text = line@;
        out.push(line);
        assert(lines_view(out@) =~= lines_view(old(out)@).push(text));
    }

    /// Appends an empty line.
    fn push_blank(out: &mut Vec<String>)
        ensures
            lines_view(final(out)@) == lines_view(old(out)@).push(seq![]),
    {
        out.push(String::new());
        assert(lines_view(out@) =~= lines_view(old(out)@).push(seq![]));
    }

    /// Rendering the `i`-th change and its connector extends the lines and
    /// paintings of the first `i` changes to those of the first `i + 1`.
    proof fn lemma_blocks_step(
        &self,
        changes: Seq<ChangeWithStatus>,
        i: int,
        acc: Seq<Seq<char>>,
        pc: Seq<Seq<char>>,
        pn: Seq<Seq<char>>,
    )
        requires
            0 <= i < changes.len(),
            painted_all(acc, self.blocks_pieces(changes, i as nat)),
            painted_all(pc, self.change_pieces(changes[i], (changes.len() - i) as nat, changes.len())),
            painted_all(pn, self.connection_pieces()),
        ensures
            painted_all(acc + (pc + pn), self.blocks_pieces(changes, (i + 1) as nat)),
            self.blocks_lines(changes, (i + 1) as nat, acc + (pc + pn)) == self.blocks_lines(changes, i as nat, acc)
                + self.change_lines(changes[i], (changes.len() - i) as nat, changes.len(), pc) + seq![
                self.connection_line(pn),
            ],
    {
        let n = changes.len();
        let cp = self.change_pieces(changes[i], (n - i) as nat, n);
        lemma_painted_all_concat(pc, cp, pn, self.connection_pieces());
        lemma_painted_all_concat(acc, self.blocks_pieces(changes, i as nat), pc + pn, self.block_pieces(changes, i));
        let next = acc + (pc + pn);
        assert(next.take(acc.len() as int) =~= acc);
        assert(next.skip(acc.len() as int) =~= pc + pn);
        assert((pc + pn).take(pc.len() as int) =~= pc);
        assert((pc + pn).skip(pc.len() as int) =~= pn);
        assert(self.blocks_pieces(changes, (i + 1) as nat) =~= self.blocks_pieces(changes, i as nat) + self.block_pieces(
            changes,
            i,
        ));
    }

    /// The content lines of the box: the changes from the head down, each
    /// with a connector below it, and the trunk line.
    pub fn stack_body(&self, changes: &[ChangeWithStatus], main_ref: &str) -> (r: Vec<String>)
        requires
            Self::ids_cut_ok(changes@),
        ensures
            exists|ps: Seq<Seq<char>>|
                #[trigger] painted_all(ps, self.body_pieces(changes@, main_ref@)) && lines_view(r@)
                    == self.body_lines(changes@, main_ref@, ps),
    {
        let total = changes.len();
        let mut lines: Vec<String> = Vec::new();
        let ghost mut acc: Seq<Seq<char>> = seq![];
        if changes.len() == 0 {
            let mut first = String::new();
            first.append("  No changes in stack");
            lines.push(first);
            let mut second = String::new();
            second.append("  (All work is integrated into ");
            second.append(main_ref);
            second.append(")");
            lines.push(second);
        } else {
            let mut i: usize = 0;
            while i < total
                invariant
                    total == changes@.len(),
                    i <= total,
                    Self::ids_cut_ok(changes@),
                    painted_all(acc, self.blocks_pieces(changes@, i as nat)),
                    lines_view(lines@) == self.blocks_lines(changes@, i as nat, acc),
                decreases total - i,
            {
                // Position: 1 is closest to trunk, total is the head
                let position = total - i;
                let ghost before = lines_view(lines@);
                let ghost cp = self.change_pieces(changes@[i as int], position as nat, total as nat);
                assert(Self::id_cut_ok(changes@[i as int].change.change_id@));
                self.render_change(&mut lines, &changes[i], position, total);
                let ghost pc = choose|ps: Seq<Seq<char>>|
                    #[trigger] painted_all(ps, cp) && lines_view(lines@) == before + self.change_lines(
                        changes@[i as int],
                        position as nat,
                        total as nat,
                        ps,
                    );
                let ghost mid = lines_view(lines@);
                // every change, the last one too, has a connector below it
                self.push_connection(&mut lines);
                proof {
                    let pn = choose|ps: Seq<Seq<char>>|
                        #[trigger] painted_all(ps, self.connection_pieces()) && lines_view(lines@) == mid.push(
                            self.connection_line(ps),
                        );
                    self.lemma_blocks_step(changes@, i as int, acc, pc, pn);
                    acc = acc + (pc + pn);
                }
                i = i + 1;
            }
        }
        let ghost before_main = lines_view(lines@);
        self.push_main(&mut lines, main_ref);
        proof {
            let pm = choose|ps: Seq<Seq<char>>|
                #[trigger] painted_all(ps, self.main_pieces(main_ref@)) && lines_view(lines@) == before_main.push(
                    self.main_line(ps),
                );
            if changes@.len() == 0 {
                assert(self.blocks_pieces(changes@, 0) =~= seq![]);
                assert(acc =~= seq![]);
            }
            lemma_painted_all_concat(acc, self.blocks_pieces(changes@, changes@.len()), pm, self.main_pieces(main_ref@));
            let ps = acc + pm;
            assert(ps.take(acc.len() as int) =~= acc);
            assert(ps.skip(acc.len() as int) =~= pm);
            assert(lines_view(lines@) =~= self.body_lines(changes@, main_ref@, ps));
            assert(painted_all(ps, self.body_pieces(changes@, main_ref@)));
        }
        lines
    }


    /// Frames content lines into the stack view: title, box edges and
    /// suggestions around them. `None` exactly when a content line or the
    /// title measures so wide that the box's margins would overflow a `usize`.
    pub fn frame_stack(&self, changes: &[ChangeWithStatus], body: Vec<String>) -> (r: Option<Vec<String>>)
        ensures
            r.is_none() <==> !Self::widths_fit(lines_view(body@), Self::stack_title(changes@.len())),
            r matches Some(out) ==> exists|ps: Seq<Seq<char>>|
                #[trigger] painted_all(ps, self.frame_pieces(changes@)) && lines_view(out@) == self.frame_layout(
                    changes@,
                    lines_view(body@),
                    ps,
                ),
            // the spacers, the bottom edge and the uncoloured top edge all
            // measure the inner width and the two borders
            r matches Some(out) ==> ({
                let title = Self::stack_title(changes@.len());
                let inner = Self::box_inner_width(lines_view(body@), title);
                &&& text_width(Self::spacer_line(inner)) == inner + 2
                &&& text_width(Self::bottom_line(inner)) == inner + 2
                &&& (out@[1]@ == Self::top_layout(title, inner, seq![Self::padded_title(title)]) ==> text_width(
                    out@[1]@,
                ) == inner + 2)
            }),
    {
        let total = changes.len();
        let mut title = String::new();
        title.append("Your Stack");
        if total > 0 {
            title.append(" (");
            push_decimal(&mut title, total);
            title.append(" commits)");
        }
        assert(title@ =~= Self::stack_title(changes@.len()));
        let ghost content = lines_view(body@);

        let mut i: usize = 0;
        while i < body.len()
            invariant
                i <= body@.len(),
                content == lines_view(body@),
                forall|j: int| 0 <= j < i ==> text_width(#[trigger] content[j]) + 2 <= usize::MAX,
            decreases body.len() - i,
        {
            let w = measure_text_width(body[i].as_str());
            assert(content[i as int] == body@[i as int]@);
            if w > usize::MAX - 2 {
                return None;
            }
            i = i + 1;
        }
        let title_width = measure_text_width(title.as_str());
        if title_width > usize::MAX - 10 {
            return None;
        }
        let inner_width = Self::inner_width_for(body.as_slice(), title.as_str());

        proof {
            Self::lemma_title_narrow(changes@.len());
        }
        let top = self.box_top_line(title.as_str(), inner_width);
        let ghost top_text = top@;
        let ghost pt = choose|ps: Seq<Seq<char>>|
            #[trigger] painted_all(ps, self.top_pieces(title@)) && top@ == Self::top_layout(title@, inner_width as nat, ps);
        let bottom = Self::box_bottom_line(inner_width);
        let suggestions = self.suggestion_lines(changes);
        let ghost psg = choose|ps: Seq<Seq<char>>|
            #[trigger] painted_all(ps, self.suggestion_pieces(changes@)) && lines_view(suggestions@)
                == self.suggestion_layout(changes@, ps);

        let mut out: Vec<String> = Vec::new();
        Self::push_blank(&mut out);
        Self::push_line(&mut out, top);
        assert(lines_view(out@)[1] == top_text);
        Self::push_line(&mut out, Self::spacer(inner_width));
        let ghost head = lines_view(out@);
        let mut k: usize = 0;
        while k < body.len()
            invariant
                k <= body@.len(),
                content == lines_view(body@),
                inner_width == Self::box_inner_width(content, title@),
                forall|j: int| 0 <= j < body@.len() ==> inner_width >= text_width(#[trigger] body@[j]@) + 2,
                lines_view(out@) == head + Self::bordered_lines(content.take(k as int), inner_width as nat),
            decreases body.len() - k,
        {
            let line = Self::border_line(body[k].as_str(), inner_width);
            Self::push_line(&mut out, line);
            assert(content.take(k + 1) =~= content.take(k as int).push(content[k as int]));
            assert(content[k as int] == body@[k as int]@);
            assert(Self::bordered_lines(content.take(k + 1), inner_width as nat) =~= Self::bordered_lines(
                content.take(k as int),
                inner_width as nat,
            ).push(Self::bordered(content[k as int], inner_width as nat)));
            k = k + 1;
        }
        assert(content.take(body@.len() as int) =~= content);
        Self::push_line(&mut out, Self::spacer(inner_width));
        Self::push_line(&mut out, bottom);
        Self::push_blank(&mut out);
        Self::append_lines(&mut out, suggestions);
        Self::push_blank(&mut out);
        proof {
            lemma_painted_all_concat(pt, self.top_pieces(title@), psg, self.suggestion_pieces(changes@));
            let ps = pt + psg;
            assert(ps.take(1) =~= pt);
            assert(ps.skip(1) =~= psg);
            assert(painted_all(ps, self.frame_pieces(changes@)));
            assert(lines_view(out@) =~= self.frame_layout(changes@, content, ps));
            assert(out@[1]@ == lines_view(out@)[1]);
        }
        Some(out)
    }

    /// Every line of the stack view, in the order `jf status` prints them
    /// (each to be printed on a line of its own). `None` when a content line
    /// or the title measures so wide that the box's margins would overflow a
    /// `usize`.
    pub fn stack_lines(&self, changes: &[ChangeWithStatus], main_ref: &str) -> (r: Option<Vec<String>>)
        requires
            Self::ids_cut_ok(changes@),
        ensures
            match r {
                Some(out) => exists|ps: Seq<Seq<char>>|
                    #[trigger] painted_all(ps, self.report_pieces(changes@, main_ref@)) && lines_view(out@)
                        == self.report_lines(changes@, main_ref@, ps) && Self::widths_fit(
                        self.body_lines(
                            changes@,
                            main_ref@,
                            ps.take(self.body_pieces(changes@, main_ref@).len() as int),
                        ),
                        Self::stack_title(changes@.len()),
                    ),
                None => exists|ps: Seq<Seq<char>>|
                    #[trigger] painted_all(ps, self.body_pieces(changes@, main_ref@)) && !Self::widths_fit(
                        self.body_lines(changes@, main_ref@, ps),
                        Self::stack_title(changes@.len()),
                    ),
            },
    {
        // Buffer content lines so the box can stretch to the longest one
        let body = self.stack_body(changes, main_ref);
        let ghost pb = choose|ps: Seq<Seq<char>>|
            #[trigger] painted_all(ps, self.body_pieces(changes@, main_ref@)) && lines_view(body@)
                == self.body_lines(changes@, main_ref@, ps);
        let ghost content = lines_view(body@);
        let framed = self.frame_stack(changes, body);
        proof {
            if framed is Some {
                let out = framed->0;
                let pf = choose|ps: Seq<Seq<char>>|
                    #[trigger] painted_all(ps, self.frame_pieces(changes@)) && lines_view(out@) == self.frame_layout(
                        changes@,
                        content,
                        ps,
                    );
                lemma_painted_all_concat(pb, self.body_pieces(changes@, main_ref@), pf, self.frame_pieces(changes@));
                let ps = pb + pf;
                let b = pb.len() as int;
                assert(ps.take(b) =~= pb);
                assert(ps.skip(b) =~= pf);
                assert(painted_all(ps, self.report_pieces(changes@, main_ref@)));
                assert(lines_view(out@) == self.report_lines(changes@, main_ref@, ps));
            } else {
                assert(painted_all(pb, self.body_pieces(changes@, main_ref@)));
            }
        }
        framed
    }

    /// In the stack view the top and bottom edges span the same inner width,
    /// which covers every content line with its margin and the title, and is
    /// at least forty columns; every line between the edges, the spacers
    /// above and below the content too, starts and ends with a side border,
    /// and each content line is padded with spaces to that width; the bottom
    /// edge is that width plus two corners;
    /// the strokes and the padded title of the top edge fill it whenever the
    /// title fits.
    pub proof fn stack_box_fits_content(&self, changes: Seq<ChangeWithStatus>, main_ref: Seq<char>, ps: Seq<Seq<char>>)
        ensures
            ({
                let b = self.body_pieces(changes, main_ref).len() as int;
                let body = self.body_lines(changes, main_ref, ps.take(b));
                let title = Self::stack_title(changes.len());
                let inner = Self::box_inner_width(body, title);
                let view = self.report_lines(changes, main_ref, ps);
                &&& view[1] == Self::top_layout(title, inner, ps.skip(b).take(1))
                &&& view[2] == Self::spacer_line(inner)
                &&& view.subrange(3, 3 + body.len() as int) == Self::bordered_lines(body, inner)
                &&& view[3 + body.len() as int] == Self::spacer_line(inner)
                &&& forall|k: int| 2 <= k <= 3 + body.len() ==> #[trigger] view[k][0] == '│' && view[k].last() == '│'
                &&& view[4 + body.len() as int] == Self::bottom_line(inner)
                &&& view[4 + body.len() as int].len() == inner + 2
                &&& forall|i: int| 0 <= i < body.len() ==> inner >= text_width(#[trigger] body[i]) + 2
                &&& inner >= 40
                &&& inner >= text_width(title) + 10
                &&& (inner >= text_width(Self::padded_title(title)) ==> Self::dash_split(title, inner).0
                    + Self::dash_split(title, inner).1 + text_width(Self::padded_title(title)) == inner)
            }),
    {
        let b = self.body_pieces(changes, main_ref).len() as int;
        let body = self.body_lines(changes, main_ref, ps.take(b));
        let title = Self::stack_title(changes.len());
        let inner = Self::box_inner_width(body, title);
        let view = self.report_lines(changes, main_ref, ps);
        Self::box_covers_every_line(body, title);
        Self::bottom_line_len(inner);
        assert(view.subrange(3, 3 + body.len() as int) =~= Self::bordered_lines(body, inner));
        reveal_strlit("│");
        assert forall|k: int| 2 <= k <= 3 + body.len() implies #[trigger] view[k][0] == '│' && view[k].last() == '│' by {
            if k == 2 || k == 3 + body.len() {
                assert(view[k] == Self::spacer_line(inner));
            } else {
                assert(view[k] == Self::bordered(body[k - 3], inner));
            }
        }
    }


    /// The lines of the first `k` changes when colouring is off.
    pub open spec fn plain_blocks(&self, changes: Seq<ChangeWithStatus>, k: nat) -> Seq<Seq<char>> {
        self.blocks_lines(changes, k, plain(self.blocks_pieces(changes, k)))
    }

    proof fn lemma_plain_concat(a: Seq<Piece>, b: Seq<Piece>)
        ensures
            plain(a + b) == plain(a) + plain(b),
            plain(a).len() == a.len(),
    {
        assert(plain(a + b) =~= plain(a) + plain(b));
    }

    /// Without colour, the first `k + 1` changes render as the first `k` and
    /// then the `k`-th change with its connector.
    proof fn lemma_plain_blocks_step(&self, changes: Seq<ChangeWithStatus>, k: nat)
        requires
            k < changes.len(),
        ensures
            self.plain_blocks(changes, k + 1) == self.plain_blocks(changes, k) + self.block_lines(
                changes,
                k as int,
                plain(self.block_pieces(changes, k as int)),
            ),
    {
        let a = self.blocks_pieces(changes, k);
        let b = self.block_pieces(changes, k as int);
        Self::lemma_plain_concat(a, b);
        assert(self.blocks_pieces(changes, k + 1) == a + b);
        let p = plain(a + b);
        assert(p.take(a.len() as int) =~= plain(a));
        assert(p.skip(a.len() as int) =~= plain(b));
    }

    /// Without colour, the lines of the first `j` changes stand at the top of
    /// the lines of the first `k >= j`.
    proof fn lemma_plain_blocks_prefix(&self, changes: Seq<ChangeWithStatus>, j: nat, k: nat)
        requires
            j <= k <= changes.len(),
        ensures
            self.plain_blocks(changes, j).is_prefix_of(self.plain_blocks(changes, k)),
        decreases k - j,
    {
        if j < k {
            self.lemma_plain_blocks_prefix(changes, j, (k - 1) as nat);
            self.lemma_plain_blocks_step(changes, (k - 1) as nat);
        }
    }

    /// Without colour, the first line of the `i`-th block is the change's main
    /// line, which starts with its position marker.
    proof fn lemma_block_starts_with_marker(&self, changes: Seq<ChangeWithStatus>, i: int)
        requires
            0 <= i < changes.len(),
        ensures
            self.block_lines(changes, i, plain(self.block_pieces(changes, i))).len() >= 1,
            ("  "@ + decimal((changes.len() - i) as nat) + "/"@ + decimal(changes.len()) + " "@).is_prefix_of(
                self.block_lines(changes, i, plain(self.block_pieces(changes, i)))[0],
            ),
    {
        let n = changes.len();
        let bp = self.block_pieces(changes, i);
        let cp = self.change_pieces(changes[i], (n - i) as nat, n);
        Self::lemma_plain_concat(cp, self.connection_pieces());
        let hp = self.head_pieces(changes[i], (n - i) as nat, n);
        Self::lemma_plain_concat(hp, self.bookmark_pieces(changes[i]));
        let q = plain(bp).take(cp.len() as int);
        assert(q[0] == hp[0].0);
        assert(q[0] == decimal((n - i) as nat) + "/"@ + decimal(n));
        let first = self.block_lines(changes, i, plain(bp))[0];
        assert(first == self.head_line(changes[i], q));
        let marker = "  "@ + decimal((n - i) as nat) + "/"@ + decimal(n) + " "@;
        let rest = if changes[i].change.empty {
            q[1] + "  "@ + q[2] + "  "@ + q[3] + " "@ + q[4]
        } else {
            q[1] + "  "@ + q[2] + "  "@ + q[3]
        };
        assert(first =~= marker + rest);
    }

    /// Without colour, the content of a non-empty stack starts with the
    /// lines of all its changes.
    proof fn lemma_plain_body(&self, changes: Seq<ChangeWithStatus>, main_ref: Seq<char>)
        requires
            changes.len() > 0,
        ensures
            self.plain_blocks(changes, changes.len()).is_prefix_of(
                self.body_lines(changes, main_ref, plain(self.body_pieces(changes, main_ref))),
            ),
    {
        let pb = self.blocks_pieces(changes, changes.len());
        let mp = self.main_pieces(main_ref);
        Self::lemma_plain_concat(pb, mp);
        let all = plain(pb + mp);
        assert(all.take(pb.len() as int) =~= plain(pb));
    }

    /// Positions count from the trunk: without colour, the `i`-th change from
    /// the top of a stack of `n` changes has its main line at the row where
    /// the lines of the changes above it end, and that line starts with its
    /// position `n - i`, a slash and `n`. So the head shows `n/n` and the
    /// change next to the trunk `1/n`.
    pub proof fn positions_count_from_trunk(&self, changes: Seq<ChangeWithStatus>, main_ref: Seq<char>, i: int)
        requires
            0 <= i < changes.len(),
        ensures
            ({
                let n = changes.len();
                let body = self.body_lines(changes, main_ref, plain(self.body_pieces(changes, main_ref)));
                let row = self.plain_blocks(changes, i as nat).len() as int;
                &&& row < body.len()
                &&& ("  "@ + decimal((n - i) as nat) + "/"@ + decimal(n) + " "@).is_prefix_of(body[row])
            }),
    {
        let n = changes.len();
        let ip = i as nat;
        self.lemma_plain_blocks_step(changes, ip);
        self.lemma_plain_blocks_prefix(changes, ip + 1, n);
        self.lemma_block_starts_with_marker(changes, i);
        self.lemma_plain_body(changes, main_ref);
        let row = self.plain_blocks(changes, ip).len() as int;
        let block = self.block_lines(changes, i, plain(self.block_pieces(changes, i)));
        let upto = self.plain_blocks(changes, ip + 1);
        assert(upto[row] == block[0]);
        assert(self.plain_blocks(changes, n)[row] == upto[row]);
    }


    /// Without colour, the content of a non-empty stack is each change's
    /// lines followed by a connector line, from the head down, and then the
    /// trunk line: one connector between two changes and one between the
    /// last change and the trunk.
    pub proof fn stack_body_unfolds(&self, changes: Seq<ChangeWithStatus>, main_ref: Seq<char>)
        requires
            changes.len() > 0,
        ensures
            forall|k: nat|
                k < changes.len() ==> #[trigger] self.plain_blocks(changes, k + 1) == self.plain_blocks(changes, k)
                    + self.change_lines(
                    changes[k as int],
                    (changes.len() - k) as nat,
                    changes.len(),
                    plain(self.change_pieces(changes[k as int], (changes.len() - k) as nat, changes.len())),
                ) + seq![self.connection_line(plain(self.connection_pieces()))],
            self.body_lines(changes, main_ref, plain(self.body_pieces(changes, main_ref))) == self.plain_blocks(
                changes,
                changes.len(),
            ) + seq![self.main_line(plain(self.main_pieces(main_ref)))],
    {
        let n = changes.len();
        assert forall|k: nat|
            k < n implies #[trigger] self.plain_blocks(changes, k + 1) == self.plain_blocks(changes, k)
                + self.change_lines(
                changes[k as int],
                (n - k) as nat,
                n,
                plain(self.change_pieces(changes[k as int], (n - k) as nat, n)),
            ) + seq![self.connection_line(plain(self.connection_pieces()))] by {
            self.lemma_plain_blocks_step(changes, k);
            let cp = self.change_pieces(changes[k as int], (n - k) as nat, n);
            Self::lemma_plain_concat(cp, self.connection_pieces());
            let q = plain(self.block_pieces(changes, k as int));
            assert(q.take(cp.len() as int) =~= plain(cp));
            assert(q.skip(cp.len() as int) =~= plain(self.connection_pieces()));
        }
        let pb = self.blocks_pieces(changes, n);
        let mp = self.main_pieces(main_ref);
        Self::lemma_plain_concat(pb, mp);
        let all = plain(pb + mp);
        assert(all.take(pb.len() as int) =~= plain(pb));
        assert(all.skip(pb.len() as int) =~= plain(mp));
    }

}

} // verus!
