use vstd::prelude::*;
use crate::color::{Color, packed};
use crate::greeter::{Greeter, Mode};
use crate::layout::{FormLayout, compute_layout, layout_spec, stack_height, visible_rows};
use crate::region::{BufferError, PixelBlock, PixelBuffer, Rect, Region, coords, unchanged_outside};
use crate::settings::{ResolvedColors, TextAlign, Ui};

verus! {

/// A paint that could not be done.
#[derive(Debug)]
pub enum DrawError {
    Buffer(BufferError),
    /// The text rasterizer failed.
    Render(String),
}

/// Text to rasterize for a row: colours, width of the block to produce,
/// and alignment within it.
#[derive(Debug)]
pub struct TextJob {
    pub text: Vec<char>,
    pub fg: Color,
    pub bg: Color,
    pub width: u32,
    pub align: TextAlign,
}

/// How the form is drawn on a screen of `screen.0` by `screen.1` pixels.
#[derive(Debug)]
pub struct Scene {
    pub screen: (u32, u32),
    pub colors: ResolvedColors,
    pub form_width: u32,
    pub row_h: u32,
    pub gap: u32,
    /// Horizontal space kept free inside the username and password rows.
    pub input_margin: u32,
    pub password_char: String,
    pub left_arrow: String,
    pub right_arrow: String,
    pub text_align: TextAlign,
}

/// The label of the session row: the name between the arrows, two spaces
/// apart, leaving out an empty arrow and its spaces.
pub open spec fn target_text(l: Seq<char>, r: Seq<char>, name: Seq<char>) -> Seq<char> {
    let sep = seq![' ', ' '];
    if l.len() == 0 && r.len() == 0 {
        name
    } else if r.len() == 0 {
        l + sep + name
    } else if l.len() == 0 {
        name + sep + r
    } else {
        l + sep + name + sep + r
    }
}

/// `n` copies of `c`, one after another.
pub open spec fn repeat(c: Seq<char>, n: nat) -> Seq<char>
    decreases n,
{
    if n == 0 {
        Seq::empty()
    } else {
        repeat(c, (n - 1) as nat) + c
    }
}

/// The rectangle of a row whose top is `y`.
pub open spec fn row_rect(l: FormLayout, y: u32) -> Rect {
    Rect { x: l.x, y, w: l.w, h: l.row_h }
}

/// The bottom strip of a region, up to four pixels high.
pub open spec fn underline_of(row: Region) -> Region {
    let t: u32 = if row.h < 4 { row.h } else { 4 };
    Region { y: (row.y + row.h - t) as u32, h: t, ..row }
}

/// Highlight of a row: `selected` when it is active, else `other`.
pub open spec fn highlight(active: bool, colors: ResolvedColors, other: Color) -> Color {
    if active {
        colors.selected
    } else {
        other
    }
}

/// The block, put at the top-left corner of `r`, gives the `i`-th word.
pub open spec fn block_covers(buf: PixelBuffer, r: Region, b: PixelBlock, i: int) -> bool {
    buf.covers(r, i) && b.pixel(coords(i, buf.width as int).0 - r.x, coords(i, buf.width as int).1 - r.y) is Some
}

/// Each word that the block, put at the top-left corner of `area`, gives
/// holds the block's pixel afterwards, unless it lies in `strip`.
pub open spec fn shows_block(before: PixelBuffer, after: PixelBuffer, area: Region, b: PixelBlock, strip: Region) -> bool {
    forall|i: int|
        0 <= i < before.pixels@.len() && block_covers(before, area, b, i) && !before.covers(strip, i)
            ==> #[trigger] after.pixels@[i] == b.pixel(
            coords(i, before.width as int).0 - area.x,
            coords(i, before.width as int).1 - area.y,
        ).unwrap()
}

/// A failure is a region that did not fit.
pub open spec fn bounds_error(res: Result<(), DrawError>) -> bool {
    match res {
        Err(DrawError::Buffer(BufferError::OutOfBounds)) => true,
        Err(_) => false,
        Ok(_) => true,
    }
}

/// A region that covers no pixel.
pub open spec fn nowhere(r: Region) -> Region {
    Region { w: 0, h: 0, ..r }
}

/// The colour of the form box: the background where `box_color` packs as
/// the neutral colour does, else `box_color`.
pub open spec fn form_fill(colors: ResolvedColors, box_color: Color) -> Color {
    if packed(box_color) == packed(colors.neutral) {
        colors.background
    } else {
        box_color
    }
}

/// Every pixel of `strip` holds `c`.
pub open spec fn painted(buf: PixelBuffer, strip: Region, c: Color) -> bool {
    forall|i: int|
        0 <= i < buf.pixels@.len() && buf.covers(strip, i) ==> #[trigger] buf.pixels@[i] == packed(c) as u32
}

/// Appends the characters of `s`.
fn push_text(v: &mut Vec<char>, s: &str)
    ensures
        final(v)@ == old(v)@ + s@,
{
    let n = s.unicode_len();
    let mut i: usize = 0;
    while i < n
        invariant
            n == s@.len(),
            i <= n,
            v@ == old(v)@ + s@.subrange(0, i as int),
        decreases n - i,
    {
        v.push(s.get_char(i));
        assert(s@.subrange(0, i + 1) =~= s@.subrange(0, i as int).push(s@[i as int]));
        i = i + 1;
    }
    assert(s@.subrange(0, n as int) =~= s@);
}

/// Paints the bottom strip of the row, up to four pixels high.
fn draw_underline(buf: &mut PixelBuffer, row: &Region, color: &Color)
    requires
        old(buf).wf(),
        old(buf).fits(*row),
    ensures
        unchanged_outside(*old(buf), *final(buf), underline_of(*row)),
        painted(*final(buf), underline_of(*row), *color),
{
    let t = if row.h < 4 { row.h } else { 4 };
    let strip = Region { y: row.y + row.h - t, h: t, ..*row };
    buf.fill(&strip, color);
}

impl Scene {
    /// The layout fits in 32 bits with all three rows shown.
    pub open spec fn wf(&self) -> bool {
        stack_height(3, self.row_h as nat, self.gap as nat) <= u32::MAX
    }

    pub open spec fn layout_of(&self, g: Greeter) -> FormLayout {
        layout_spec(self.screen, self.form_width, self.row_h, self.gap, !g.lock_target, g.forced_username is None)
    }

    /// The scene of the configuration: the gap is the one below the
    /// username row; none when three rows with two gaps would not fit in
    /// 32 bits.
    pub fn from_settings(screen: (u32, u32), colors: ResolvedColors, ui: &Ui) -> (s: Option<Scene>)
        ensures
            s is Some <==> stack_height(3, ui.row_h as nat, ui.gap_below_username_px as nat) <= u32::MAX,
            s is Some ==> s.unwrap().wf() && s.unwrap().screen == screen && s.unwrap().colors == colors
                && s.unwrap().row_h == ui.row_h && s.unwrap().gap == ui.gap_below_username_px
                && s.unwrap().form_width == ui.form_width && s.unwrap().text_align == ui.text_align,
    {
        let row_h = ui.row_h as u64;
        let gap = ui.gap_below_username_px as u64;
        if 3 * row_h + 2 * gap > u32::MAX as u64 {
            return None;
        }
        Some(
            Scene {
                screen,
                colors,
                form_width: ui.form_width,
                row_h: ui.row_h,
                gap: ui.gap_below_username_px,
                input_margin: 0,
                password_char: ui.password_char.clone(),
                left_arrow: ui.session_left_arrow.clone(),
                right_arrow: ui.session_right_arrow.clone(),
                text_align: ui.text_align,
            },
        )
    }

    /// The layout for the rows that the greeter shows.
    pub fn form_layout(&self, g: &Greeter) -> (l: FormLayout)
        requires
            self.wf(),
        ensures
            l == self.layout_of(*g),
    {
        let show_session = !g.lock_target;
        let show_username = g.forced_username.is_none();
        proof {
            let rows = visible_rows(show_session, show_username);
            assert(stack_height(rows, self.row_h as nat, self.gap as nat) <= stack_height(
                3,
                self.row_h as nat,
                self.gap as nat,
            )) by (nonlinear_arith)
                requires
                    1 <= rows <= 3,
            ;
        }
        compute_layout(self.screen, self.form_width, self.row_h, self.gap, show_session, show_username)
    }

    fn row_region(&self, buf: &PixelBuffer, l: &FormLayout, y: u32) -> (res: Result<Region, DrawError>)
        requires
            buf.wf(),
        ensures
            match res {
                Ok(r) => buf.whole_spec().subview_spec(row_rect(*l, y)) == Some(r) && buf.fits(r),
                Err(DrawError::Buffer(BufferError::OutOfBounds)) => buf.whole_spec().subview_spec(
                    row_rect(*l, y),
                ) is None,
                Err(_) => false,
            },
    {
        match buf.whole().subview(Rect { x: l.x, y, w: l.w, h: l.row_h }) {
            Ok(r) => Ok(r),
            Err(_) => Err(DrawError::Buffer(BufferError::OutOfBounds)),
        }
    }

    /// Width of the text block of the username and password rows.
    pub open spec fn input_width(&self, l: FormLayout) -> u32 {
        let m = if self.input_margin < l.w / 2 { self.input_margin } else { (l.w / 2) as u32 };
        if m > 0 {
            (l.w - 2 * m) as u32
        } else {
            l.w
        }
    }

    /// Where the text block of an input row goes: inside the margins.
    pub open spec fn input_area(&self, l: FormLayout, row: Region) -> Region {
        let m = if self.input_margin < l.w / 2 { self.input_margin } else { (l.w / 2) as u32 };
        if m > 0 {
            row.subview_spec(Rect { x: m, y: 0, w: (l.w - 2 * m) as u32, h: l.row_h }).unwrap()
        } else {
            row
        }
    }

    fn input_margin_for(&self, l: &FormLayout) -> (m: u32)
        ensures
            m == (if self.input_margin < l.w / 2 { self.input_margin } else { (l.w / 2) as u32 }),
    {
        if self.input_margin < l.w / 2 {
            self.input_margin
        } else {
            l.w / 2
        }
    }

    /// The text of the session row, when it is shown.
    pub fn target_job(&self, g: &Greeter) -> (j: Option<TextJob>)
        requires
            self.wf(),
            g.wf(),
        ensures
            j is None <==> g.lock_target,
            j is Some ==> ({
                let j = j.unwrap();
                &&& j.text@ == target_text(
                    self.left_arrow@,
                    self.right_arrow@,
                    g.targets@[g.target_index as int].name@,
                )
                &&& j.fg == highlight(g.mode == Mode::SelectingSession, self.colors, self.colors.foreground)
                &&& j.bg == self.colors.background
                &&& j.width == self.layout_of(*g).w
                &&& j.align == TextAlign::Center
            }),
    {
        if g.lock_target {
            return None;
        }
        let l = self.form_layout(g);
        let name = g.targets[g.target_index].name.as_str();
        let left = self.left_arrow.as_str();
        let right = self.right_arrow.as_str();
        let mut text: Vec<char> = Vec::new();
        let nl = left.unicode_len();
        let nr = right.unicode_len();
        if nl > 0 {
            push_text(&mut text, left);
            push_text(&mut text, "  ");
        }
        push_text(&mut text, name);
        if nr > 0 {
            push_text(&mut text, "  ");
            push_text(&mut text, right);
        }
        proof {
            reveal_strlit("  ");
            assert(text@ =~= target_text(self.left_arrow@, self.right_arrow@, name@));
        }
        let fg = if g.mode == Mode::SelectingSession {
            self.colors.selected
        } else {
            self.colors.foreground
        };
        Some(TextJob { text, fg, bg: self.colors.background, width: l.w, align: TextAlign::Center })
    }

    /// The text of the username row, when it is shown.
    pub fn username_job(&self, g: &Greeter) -> (j: Option<TextJob>)
        requires
            self.wf(),
            g.wf(),
        ensures
            j is None <==> g.forced_username is Some,
            j is Some ==> ({
                let j = j.unwrap();
                &&& j.text@ == g.username@
                &&& j.fg == highlight(g.mode == Mode::EditingUsername, self.colors, self.colors.foreground)
                &&& j.bg == self.colors.background
                &&& j.width == self.input_width(self.layout_of(*g))
                &&& j.align == self.text_align
            }),
    {
        if g.forced_username.is_some() {
            return None;
        }
        let l = self.form_layout(g);
        let m = self.input_margin_for(&l);
        let width = if m > 0 { l.w - 2 * m } else { l.w };
        let mut text: Vec<char> = Vec::new();
        let mut i: usize = 0;
        while i < g.username.len()
            invariant
                i <= g.username@.len(),
                text@ == g.username@.subrange(0, i as int),
            decreases g.username@.len() - i,
        {
            text.push(g.username[i]);
            i = i + 1;
        }
        assert(text@ =~= g.username@);
        let fg = if g.mode == Mode::EditingUsername {
            self.colors.selected
        } else {
            self.colors.foreground
        };
        Some(TextJob { text, fg, bg: self.colors.background, width, align: self.text_align })
    }

    /// The text of the password row: the mask repeated once per character.
    pub fn password_job(&self, g: &Greeter) -> (j: TextJob)
        requires
            self.wf(),
            g.wf(),
        ensures
            j.text@ == repeat(self.password_char@, g.password@.len()),
            j.fg == highlight(g.mode == Mode::EditingPassword, self.colors, self.colors.foreground),
            j.bg == self.colors.background,
            j.width == self.input_width(self.layout_of(*g)),
            j.align == self.text_align,
    {
        let l = self.form_layout(g);
        let m = self.input_margin_for(&l);
        let width = if m > 0 { l.w - 2 * m } else { l.w };
        let mut text: Vec<char> = Vec::new();
        let mut i: usize = 0;
        while i < g.password.len()
            invariant
                i <= g.password@.len(),
                text@ == repeat(self.password_char@, i as nat),
            decreases g.password@.len() - i,
        {
            push_text(&mut text, self.password_char.as_str());
            i = i + 1;
        }
        let fg = if g.mode == Mode::EditingPassword {
            self.colors.selected
        } else {
            self.colors.foreground
        };
        TextJob { text, fg, bg: self.colors.background, width, align: self.text_align }
    }

    /// The heading, centered across the screen.
    pub fn heading_job(&self, hostname: &str) -> (j: TextJob)
        ensures
            j.text@ == "Welcome to "@ + hostname@,
            j.fg == self.colors.foreground,
            j.bg == self.colors.background,
            j.width == self.screen.0,
            j.align == TextAlign::Center,
    {
        let mut text: Vec<char> = Vec::new();
        push_text(&mut text, "Welcome to ");
        push_text(&mut text, hostname);
        TextJob {
            text,
            fg: self.colors.foreground,
            bg: self.colors.background,
            width: self.screen.0,
            align: TextAlign::Center,
        }
    }

    /// Repaints the session row: its background, then the rasterized label.
    /// Nothing is painted when the row is hidden; it fails, painting
    /// nothing, when the row does not fit on the buffer.
    pub fn paint_target(&self, buf: &mut PixelBuffer, g: &Greeter, block: &PixelBlock) -> (res: Result<(), DrawError>)
        requires
            self.wf(),
            g.wf(),
            old(buf).wf(),
        ensures
            g.lock_target ==> res is Ok && same_pixels(*old(buf), *final(buf)),
            !g.lock_target ==> ({
                let l = self.layout_of(*g);
                let row = old(buf).whole_spec().subview_spec(row_rect(l, l.session_y.unwrap()));
                &&& res is Ok <==> row is Some
                &&& row is None ==> same_pixels(*old(buf), *final(buf))
                &&& row is Some ==> unchanged_outside(*old(buf), *final(buf), row.unwrap())
                &&& row is Some ==> forall|i: int|
                    0 <= i < old(buf).pixels@.len() && old(buf).covers(row.unwrap(), i) && !block_covers(
                        *old(buf),
                        row.unwrap(),
                        *block,
                        i,
                    ) ==> #[trigger] final(buf).pixels@[i] == packed(self.colors.background) as u32
                &&& row is Some ==> shows_block(*old(buf), *final(buf), row.unwrap(), *block, nowhere(row.unwrap()))
                &&& bounds_error(res)
            }),
    {
        if g.lock_target {
            return Ok(());
        }
        let l = self.form_layout(g);
        let y = match l.session_y {
            Some(y) => y,
            None => return Ok(()),
        };
        let row = match self.row_region(buf, &l, y) {
            Ok(r) => r,
            Err(e) => return Err(e),
        };
        let ghost before = *buf;
        buf.fill(&row, &self.colors.background);
        let ghost mid = *buf;
        buf.blit_block(&row, block);
        proof {
            lemma_unchanged_trans(before, mid, *buf, row);
        }
        Ok(())
    }

    /// Repaints the username row: its background when `clear`, the
    /// rasterized text inside the margins, then the underline, highlighted
    /// when the row is active. Nothing is painted when the row is hidden; it
    /// fails, painting nothing, when the row does not fit on the buffer.
    pub fn paint_username(&self, buf: &mut PixelBuffer, g: &Greeter, clear: bool, block: &PixelBlock) -> (res:
        Result<(), DrawError>)
        requires
            self.wf(),
            g.wf(),
            old(buf).wf(),
        ensures
            g.forced_username is Some ==> res is Ok && same_pixels(*old(buf), *final(buf)),
            g.forced_username is None ==> ({
                let l = self.layout_of(*g);
                let row = old(buf).whole_spec().subview_spec(row_rect(l, l.username_y.unwrap()));
                &&& res is Ok <==> row is Some
                &&& row is None ==> same_pixels(*old(buf), *final(buf))
                &&& row is Some ==> unchanged_outside(*old(buf), *final(buf), row.unwrap()) && painted(
                    *final(buf),
                    underline_of(row.unwrap()),
                    highlight(g.mode == Mode::EditingUsername, self.colors, self.colors.neutral),
                )
                &&& row is Some && clear ==> forall|i: int|
                    0 <= i < old(buf).pixels@.len() && old(buf).covers(row.unwrap(), i) && !block_covers(
                        *old(buf),
                        self.input_area(l, row.unwrap()),
                        *block,
                        i,
                    ) && !old(buf).covers(underline_of(row.unwrap()), i) ==> #[trigger] final(buf).pixels@[i]
                        == packed(self.colors.background) as u32
                &&& row is Some ==> shows_block(
                    *old(buf),
                    *final(buf),
                    self.input_area(l, row.unwrap()),
                    *block,
                    underline_of(row.unwrap()),
                )
                &&& bounds_error(res)
            }),
    {
        if g.forced_username.is_some() {
            return Ok(());
        }
        let l = self.form_layout(g);
        let y = match l.username_y {
            Some(y) => y,
            None => return Ok(()),
        };
        let border = if g.mode == Mode::EditingUsername {
            self.colors.selected
        } else {
            self.colors.neutral
        };
        self.paint_input(buf, &l, y, clear, block, &border)
    }

    /// Repaints the password row as `paint_username` does the username row;
    /// this row is always shown.
    pub fn paint_password(&self, buf: &mut PixelBuffer, g: &Greeter, clear: bool, block: &PixelBlock) -> (res:
        Result<(), DrawError>)
        requires
            self.wf(),
            g.wf(),
            old(buf).wf(),
        ensures
            ({
                let l = self.layout_of(*g);
                let row = old(buf).whole_spec().subview_spec(row_rect(l, l.password_y));
                &&& res is Ok <==> row is Some
                &&& row is None ==> same_pixels(*old(buf), *final(buf))
                &&& row is Some ==> unchanged_outside(*old(buf), *final(buf), row.unwrap()) && painted(
                    *final(buf),
                    underline_of(row.unwrap()),
                    highlight(g.mode == Mode::EditingPassword, self.colors, self.colors.neutral),
                )
                &&& row is Some && clear ==> forall|i: int|
                    0 <= i < old(buf).pixels@.len() && old(buf).covers(row.unwrap(), i) && !block_covers(
                        *old(buf),
                        self.input_area(l, row.unwrap()),
                        *block,
                        i,
                    ) && !old(buf).covers(underline_of(row.unwrap()), i) ==> #[trigger] final(buf).pixels@[i]
                        == packed(self.colors.background) as u32
                &&& row is Some ==> shows_block(
                    *old(buf),
                    *final(buf),
                    self.input_area(l, row.unwrap()),
                    *block,
                    underline_of(row.unwrap()),
                )
                &&& bounds_error(res)
            }),
    {
        let l = self.form_layout(g);
        let border = if g.mode == Mode::EditingPassword {
            self.colors.selected
        } else {
            self.colors.neutral
        };
        self.paint_input(buf, &l, l.password_y, clear, block, &border)
    }

    fn paint_input(
        &self,
        buf: &mut PixelBuffer,
        l: &FormLayout,
        y: u32,
        clear: bool,
        block: &PixelBlock,
        border: &Color,
    ) -> (res: Result<(), DrawError>)
        requires
            old(buf).wf(),
        ensures
            ({
                let row = old(buf).whole_spec().subview_spec(row_rect(*l, y));
                &&& res is Ok <==> row is Some
                &&& row is None ==> same_pixels(*old(buf), *final(buf))
                &&& row is Some ==> unchanged_outside(*old(buf), *final(buf), row.unwrap()) && painted(
                    *final(buf),
                    underline_of(row.unwrap()),
                    *border,
                )
                &&& row is Some && clear ==> forall|i: int|
                    0 <= i < old(buf).pixels@.len() && old(buf).covers(row.unwrap(), i) && !block_covers(
                        *old(buf),
                        self.input_area(*l, row.unwrap()),
                        *block,
                        i,
                    ) && !old(buf).covers(underline_of(row.unwrap()), i) ==> #[trigger] final(buf).pixels@[i]
                        == packed(self.colors.background) as u32
                &&& row is Some ==> shows_block(
                    *old(buf),
                    *final(buf),
                    self.input_area(*l, row.unwrap()),
                    *block,
                    underline_of(row.unwrap()),
                )
                &&& bounds_error(res)
            }),
    {
        let row = match self.row_region(buf, l, y) {
            Ok(r) => r,
            Err(e) => return Err(e),
        };
        let ghost before = *buf;
        if clear {
            buf.fill(&row, &self.colors.background);
        }
        let ghost mid = *buf;
        proof {
            lemma_unchanged_trans(before, before, mid, row);
        }
        let m = self.input_margin_for(l);
        if m > 0 {
            let inner = match row.subview(Rect { x: m, y: 0, w: l.w - 2 * m, h: l.row_h }) {
                Ok(r) => r,
                Err(e) => return Err(DrawError::Buffer(e)),
            };
            buf.blit_block(&inner, block);
            proof {
                assert forall|i: int| 0 <= i < mid.pixels@.len() && !mid.covers(row, i) implies !mid.covers(
                    inner,
                    i,
                ) by {}
            }
        } else {
            buf.blit_block(&row, block);
        }
        let ghost mid2 = *buf;
        proof {
            lemma_unchanged_trans(before, mid, mid2, row);
        }
        draw_underline(buf, &row, border);
        proof {
            lemma_unchanged_trans(before, mid2, *buf, row);
        }
        Ok(())
    }

    /// Repaints the chrome: the form box in `box_color` (in the background
    /// colour when `box_color` packs as the neutral one), the heading 32
    /// pixels from the top, and the underlines of the visible input rows,
    /// highlighted on the active one. It fails when one of these does not
    /// fit on the buffer.
    pub fn paint_chrome(&self, buf: &mut PixelBuffer, g: &Greeter, box_color: &Color, heading: &PixelBlock) -> (res:
        Result<(), DrawError>)
        requires
            self.wf(),
            g.wf(),
            old(buf).wf(),
        ensures
            final(buf).wf(),
            final(buf).width == old(buf).width,
            final(buf).height == old(buf).height,
            ({
                let l = self.layout_of(*g);
                let whole = old(buf).whole_spec();
                let form = whole.subview_spec(Rect { x: l.x, y: l.y, w: l.w, h: l.total_h });
                let urow = whole.subview_spec(row_rect(l, l.username_y.unwrap()));
                let prow = whole.subview_spec(row_rect(l, l.password_y));
                let head = whole.subview_spec(Rect { x: 0, y: 32, w: whole.w, h: (whole.h - 32) as u32 }).unwrap();
                &&& res is Ok <==> form is Some && 32 <= old(buf).height && (l.username_y is Some
                    ==> urow is Some) && prow is Some
                &&& res is Ok ==> painted(
                    *final(buf),
                    underline_of(prow.unwrap()),
                    highlight(g.mode == Mode::EditingPassword, self.colors, self.colors.neutral),
                )
                &&& res is Ok && l.username_y is Some ==> painted(
                    *final(buf),
                    underline_of(urow.unwrap()),
                    highlight(g.mode == Mode::EditingUsername, self.colors, self.colors.neutral),
                )
                &&& res is Ok ==> forall|i: int|
                    0 <= i < old(buf).pixels@.len() && old(buf).covers(form.unwrap(), i) && !block_covers(
                        *old(buf),
                        whole.subview_spec(Rect { x: 0, y: 32, w: whole.w, h: (whole.h - 32) as u32 }).unwrap(),
                        *heading,
                        i,
                    ) && !old(buf).covers(underline_of(prow.unwrap()), i) && !(l.username_y is Some
                        && old(buf).covers(underline_of(urow.unwrap()), i)) ==> #[trigger] final(buf).pixels@[i]
                        == packed(form_fill(self.colors, *box_color)) as u32
                &&& res is Ok ==> forall|i: int|
                    0 <= i < old(buf).pixels@.len() && block_covers(*old(buf), head, *heading, i) && !old(
                        buf,
                    ).covers(underline_of(prow.unwrap()), i) && !(l.username_y is Some && old(buf).covers(
                        underline_of(urow.unwrap()),
                        i,
                    )) ==> #[trigger] final(buf).pixels@[i] == heading.pixel(
                        coords(i, old(buf).width as int).0 - head.x,
                        coords(i, old(buf).width as int).1 - head.y,
                    ).unwrap()
                &&& form is None ==> same_pixels(*old(buf), *final(buf))
                &&& bounds_error(res)
            }),
    {
        let l = self.form_layout(g);
        let fill = if box_color.as_argb8888() == self.colors.neutral.as_argb8888() {
            self.colors.background
        } else {
            *box_color
        };
        let whole = buf.whole();
        let form = match whole.subview(Rect { x: l.x, y: l.y, w: l.w, h: l.total_h }) {
            Ok(r) => r,
            Err(e) => return Err(DrawError::Buffer(e)),
        };
        buf.fill(&form, &fill);
        let head = match whole.offset(0, 32) {
            Ok(r) => r,
            Err(e) => return Err(DrawError::Buffer(e)),
        };
        let ghost filled = *buf;
        buf.blit_block(&head, heading);
        let ghost blitted = *buf;
        let ghost urow_spec = whole.subview_spec(row_rect(l, l.username_y.unwrap()));
        if let Some(uy) = l.username_y {
            let row = match self.row_region(buf, &l, uy) {
                Ok(r) => r,
                Err(e) => return Err(e),
            };
            let c = if g.mode == Mode::EditingUsername {
                self.colors.selected
            } else {
                self.colors.neutral
            };
            draw_underline(buf, &row, &c);
        }
        let ghost mid = *buf;
        let row = match self.row_region(buf, &l, l.password_y) {
            Ok(r) => r,
            Err(e) => return Err(e),
        };
        let c = if g.mode == Mode::EditingPassword {
            self.colors.selected
        } else {
            self.colors.neutral
        };
        draw_underline(buf, &row, &c);
        proof {
            assert(fill == form_fill(self.colors, *box_color));
            if l.username_y is Some {
                let rows = visible_rows(!g.lock_target, g.forced_username is None);
                assert(stack_height(rows, self.row_h as nat, self.gap as nat) <= stack_height(
                    3,
                    self.row_h as nat,
                    self.gap as nat,
                )) by (nonlinear_arith)
                    requires
                        1 <= rows <= 3,
                ;
                crate::layout::lemma_layout_rows_packed(
                    self.screen,
                    self.form_width,
                    self.row_h,
                    self.gap,
                    !g.lock_target,
                    g.forced_username is None,
                );
                assert(l.password_y == l.username_y.unwrap() + l.row_h + self.gap);
                let ustrip = underline_of(urow_spec.unwrap());
                let pstrip = underline_of(row);
                assert forall|i: int| 0 <= i < mid.pixels@.len() && mid.covers(ustrip, i) implies !mid.covers(
                    pstrip,
                    i,
                ) by {}
            }
        }
        Ok(())
    }
}

/// The pixels, and the size, are those of before.
pub open spec fn same_pixels(before: PixelBuffer, after: PixelBuffer) -> bool {
    &&& after.wf()
    &&& after.width == before.width
    &&& after.height == before.height
    &&& after.pixels@ == before.pixels@
}

proof fn lemma_unchanged_trans(a: PixelBuffer, b: PixelBuffer, c: PixelBuffer, r: Region)
    requires
        a.wf(),
        a == b || unchanged_outside(a, b, r),
        b == c || unchanged_outside(b, c, r),
    ensures
        unchanged_outside(a, c, r),
{
    assert forall|i: int| 0 <= i < a.pixels@.len() && !a.covers(r, i) implies #[trigger] c.pixels@[i]
        == a.pixels@[i] by {
        if a != b {
            assert(b.pixels@[i] == a.pixels@[i]);
        }
        if b != c {
            assert(!b.covers(r, i));
            assert(c.pixels@[i] == b.pixels@[i]);
        }
    }
}

} // verus!
