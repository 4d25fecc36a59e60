use vstd::prelude::*;

verus! {

/// Horizontal space kept free on each side of the form.
pub const FORM_MARGIN: u32 = 32;

/// Where the form and its rows stand on the screen; a hidden row has no
/// offset.
#[derive(Clone, Copy, Debug, PartialEq, Eq, Structural)]
pub struct FormLayout {
    pub x: u32,
    pub y: u32,
    pub w: u32,
    pub row_h: u32,
    pub total_h: u32,
    pub session_y: Option<u32>,
    pub username_y: Option<u32>,
    pub password_y: u32,
}

/// Number of visible rows: the password row and each shown optional row.
pub open spec fn visible_rows(show_session: bool, show_username: bool) -> nat {
    (if show_session { 1nat } else { 0nat }) + (if show_username { 1nat } else { 0nat }) + 1
}

/// Height of `rows` rows of `row_h` with `gap` between each two.
pub open spec fn stack_height(rows: nat, row_h: nat, gap: nat) -> nat {
    rows * row_h + (if rows > 0 { (rows - 1) as nat } else { 0nat }) * gap
}

pub open spec fn form_width_spec(screen_w: nat, configured: nat) -> nat {
    let max_w = if screen_w > 2 * FORM_MARGIN { (screen_w - 2 * FORM_MARGIN) as nat } else { 1nat };
    let w = if configured < max_w { configured } else { max_w };
    if w < 1 { 1 } else { w }
}

/// The layout of the form on a screen of `screen.0` by `screen.1` pixels:
/// the form centered, its visible rows stacked from its top in the order
/// session, username, password, `row_h + gap` apart.
pub open spec fn layout_spec(
    screen: (u32, u32),
    form_width: u32,
    row_h: u32,
    gap: u32,
    show_session: bool,
    show_username: bool,
) -> FormLayout {
    let rows = visible_rows(show_session, show_username);
    let total = stack_height(rows, row_h as nat, gap as nat);
    let w = form_width_spec(screen.0 as nat, form_width as nat);
    let x = if screen.0 > w { (screen.0 - w) / 2 } else { 0 };
    let y = if screen.1 > total { (screen.1 - total) / 2 } else { 0 };
    let step = row_h + gap;
    let above_username = if show_session { step } else { 0 };
    FormLayout {
        x: x as u32,
        y: y as u32,
        w: w as u32,
        row_h,
        total_h: total as u32,
        session_y: if show_session { Some(y as u32) } else { None },
        username_y: if show_username { Some((y + above_username) as u32) } else { None },
        password_y: (y + above_username + (if show_username { step } else { 0 })) as u32,
    }
}

/// Lays the form out on the screen; the stacked rows must fit in 32 bits.
pub fn compute_layout(
    screen: (u32, u32),
    form_width: u32,
    row_h: u32,
    gap: u32,
    show_session: bool,
    show_username: bool,
) -> (l: FormLayout)
    requires
        stack_height(visible_rows(show_session, show_username), row_h as nat, gap as nat) <= u32::MAX,
    ensures
        l == layout_spec(screen, form_width, row_h, gap, show_session, show_username),
{
    let rows: u32 = (if show_session { 1u32 } else { 0u32 }) + (if show_username { 1u32 } else { 0u32 }) + 1;
    proof {
        assert(rows * row_h + (rows - 1) * gap <= u32::MAX);
        assert(rows * row_h <= u32::MAX && (rows - 1) * gap <= u32::MAX) by (nonlinear_arith)
            requires
                rows * row_h + (rows - 1) * gap <= u32::MAX,
                rows >= 1,
                row_h >= 0,
                gap >= 0,
        ;
        assert((rows - 1) * (row_h + gap) <= rows * row_h + (rows - 1) * gap) by (nonlinear_arith)
            requires
                rows >= 1,
                row_h >= 0,
                gap >= 0,
        ;
    }
    let total_h = rows * row_h + (rows - 1) * gap;

    let max_w = FORM_MARGIN * 2;
    let max_w = if screen.0 > max_w { screen.0 - max_w } else { 1 };
    let w = if form_width < max_w { form_width } else { max_w };
    let w = if w < 1 { 1 } else { w };

    let x = if screen.0 > w { (screen.0 - w) / 2 } else { 0 };
    let y = if screen.1 > total_h { (screen.1 - total_h) / 2 } else { 0 };

    proof {
        assert(y + total_h <= u32::MAX);
        assert(rows >= 2 ==> row_h + gap <= total_h) by (nonlinear_arith)
            requires
                total_h == rows * row_h + (rows - 1) * gap,
        ;
        assert(rows == 3 ==> 2 * (row_h + gap) <= total_h) by (nonlinear_arith)
            requires
                total_h == rows * row_h + (rows - 1) * gap,
        ;
    }
    let mut cur_y = y;
    let session_y = if show_session {
        let out = cur_y;
        cur_y = cur_y + (row_h + gap);
        Some(out)
    } else {
        None
    };
    let username_y = if show_username {
        let out = cur_y;
        cur_y = cur_y + (row_h + gap);
        Some(out)
    } else {
        None
    };
    let password_y = cur_y;

    FormLayout { x, y, w, row_h, total_h, session_y, username_y, password_y }
}

/// Hidden rows leave no gap: the visible rows follow one another
/// `row_h + gap` apart from the top of the form, the password row last, and
/// the form is as high as its visible rows with one gap between each two.
pub proof fn lemma_layout_rows_packed(
    screen: (u32, u32),
    form_width: u32,
    row_h: u32,
    gap: u32,
    show_session: bool,
    show_username: bool,
)
    requires
        stack_height(visible_rows(show_session, show_username), row_h as nat, gap as nat) <= u32::MAX,
    ensures
        ({
            let l = layout_spec(screen, form_width, row_h, gap, show_session, show_username);
            let rows = visible_rows(show_session, show_username);
            let step = row_h + gap;
            &&& l.total_h == rows * row_h + (rows - 1) * gap
            &&& show_session ==> l.session_y == Some(l.y)
            &&& show_username ==> l.username_y == Some(
                (l.y + (if show_session { step } else { 0 })) as u32,
            )
            &&& show_username ==> l.password_y == l.username_y.unwrap() + step
            &&& show_session && !show_username ==> l.password_y == l.session_y.unwrap() + step
            &&& !show_session && !show_username ==> l.password_y == l.y
            &&& (l.session_y is Some) == show_session
            &&& (l.username_y is Some) == show_username
            &&& l.password_y + l.row_h == l.y + l.total_h
        }),
{
    let rows = visible_rows(show_session, show_username);
    let l = layout_spec(screen, form_width, row_h, gap, show_session, show_username);
    let total = stack_height(rows, row_h as nat, gap as nat);
    assert((rows - 1) * (row_h + gap) <= total) by (nonlinear_arith)
        requires
            rows >= 1,
            total == rows * row_h + (rows - 1) * gap,
    ;
    assert(rows == 3 ==> 2 * (row_h + gap) <= total) by (nonlinear_arith)
        requires
            total == rows * row_h + (rows - 1) * gap,
    ;
    assert(rows == 2 ==> row_h + gap <= total) by (nonlinear_arith)
        requires
            total == rows * row_h + (rows - 1) * gap,
    ;
    assert(rows == 1 ==> total == row_h) by (nonlinear_arith)
        requires
            total == rows * row_h + (rows - 1) * gap,
    ;
    assert(rows == 2 ==> total == 2 * row_h + gap) by (nonlinear_arith)
        requires
            total == rows * row_h + (rows - 1) * gap,
    ;
    assert(rows == 3 ==> total == 3 * row_h + 2 * gap) by (nonlinear_arith)
        requires
            total == rows * row_h + (rows - 1) * gap,
    ;
}

} // verus!
