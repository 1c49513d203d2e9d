//! The prompt owns its rectangle: drawing the prompt changes no pixel outside
//! the prompt rectangle, so a lock frame shows the fallback color everywhere
//! else, and inside the rectangle the result does not depend on what was drawn
//! underneath, so text drawn before the prompt cannot show through it.

use vstd::prelude::*;

use crate::renderer::background::{channel_of, column_of, row_of};
use crate::wayland::opaque::{
    clamp, color_byte, feedback_background, fill_all, in_disc, in_rect, max, min, paint,
    prompt_center_x, prompt_center_y, ready_background, rgba_of, sat_add, sat_mul, sat_sub,
    spec_background, spec_dots, spec_fill_circle, spec_fill_prompt, spec_fill_rect,
    spec_fitted_spacing, spec_lock_frame, spec_lock_prompt, spec_maximum_dot_radius,
    spec_opaque_over, spec_prompt_rectangle, whole_pixel, PromptState, PromptStyle, Rectangle,
    Rgba,
};

verus! {

/// Pixel (`px`, `py`) lies inside `prompt`.
pub open spec fn in_prompt(prompt: Rectangle, px: int, py: int) -> bool {
    &&& prompt.x <= px < prompt.x + prompt.width
    &&& prompt.y <= py < prompt.y + prompt.height
}

/// `after` differs from `before` only in pixels inside `prompt`.
pub open spec fn outside_unchanged(
    before: Seq<u8>,
    after: Seq<u8>,
    width: int,
    prompt: Rectangle,
) -> bool {
    &&& after.len() == before.len()
    &&& forall|k: int|
        0 <= k < before.len() && !in_prompt(prompt, column_of(width, k), row_of(width, k))
            ==> #[trigger] after[k] == before[k]
}

/// A disc of radius `r` around (`cx`, `cy`), as the canvas clips it, lies inside
/// `prompt`.
pub open spec fn disc_fits(
    prompt: Rectangle,
    canvas_width: int,
    canvas_height: int,
    cx: int,
    cy: int,
    r: int,
) -> bool {
    &&& 0 <= r
    &&& prompt.x <= cx - r
    &&& min(cx + r, sat_sub(canvas_width, 1)) <= prompt.x + prompt.width - 1
    &&& prompt.y <= cy - r
    &&& min(cy + r, sat_sub(canvas_height, 1)) <= prompt.y + prompt.height - 1
    &&& cx + r <= usize::MAX
    &&& cy + r <= usize::MAX
}

proof fn lemma_outside_unchanged_chains(
    first: Seq<u8>,
    second: Seq<u8>,
    third: Seq<u8>,
    width: int,
    prompt: Rectangle,
)
    requires
        outside_unchanged(first, second, width, prompt),
        outside_unchanged(second, third, width, prompt),
    ensures
        outside_unchanged(first, third, width, prompt),
{
    assert forall|k: int|
        0 <= k < first.len() && !in_prompt(prompt, column_of(width, k), row_of(width, k))
            implies #[trigger] third[k] == first[k] by {
        assert(third[k] == second[k]);
    }
}

proof fn lemma_paint_inside(
    canvas: Seq<u8>,
    width: int,
    region: spec_fn(int, int) -> bool,
    color: Rgba,
    prompt: Rectangle,
)
    requires
        forall|px: int, py: int| #[trigger] region(px, py) ==> in_prompt(prompt, px, py),
    ensures
        outside_unchanged(canvas, paint(canvas, width, region, color), width, prompt),
{
}

proof fn lemma_fill_rect_inside(
    canvas: Seq<u8>,
    width: int,
    height: int,
    x: int,
    y: int,
    w: int,
    h: int,
    color: Rgba,
    prompt: Rectangle,
)
    requires
        prompt.x <= x,
        prompt.y <= y,
        min(sat_add(x, w), width) <= prompt.x + prompt.width,
        min(sat_add(y, h), height) <= prompt.y + prompt.height,
    ensures
        outside_unchanged(
            canvas,
            spec_fill_rect(canvas, width, height, x, y, w, h, color),
            width,
            prompt,
        ),
{
    lemma_paint_inside(
        canvas,
        width,
        |px: int, py: int| in_rect(x, y, w, h, width, height, px, py),
        color,
        prompt,
    );
}

proof fn lemma_fill_circle_inside(
    canvas: Seq<u8>,
    width: int,
    height: int,
    cx: int,
    cy: int,
    r: int,
    color: Rgba,
    prompt: Rectangle,
)
    requires
        width >= 1,
        0 <= cx,
        0 <= cy,
        disc_fits(prompt, width, height, cx, cy, r),
    ensures
        outside_unchanged(
            canvas,
            spec_fill_circle(canvas, width, height, cx, cy, r, color),
            width,
            prompt,
        ),
{
    let region = |px: int, py: int| in_disc(cx, cy, r, width, height, px, py);
    assert forall|px: int, py: int| #[trigger] region(px, py) implies in_prompt(prompt, px, py) by {
        assert(sat_sub(cx, r) == cx - r);
        assert(sat_add(cx, r) == cx + r);
        assert(sat_sub(cy, r) == cy - r);
        assert(sat_add(cy, r) == cy + r);
    }
    lemma_paint_inside(canvas, width, region, color, prompt);
}

/// The center of dot `i` of a row of dots.
pub open spec fn dot_center(start_x: int, spacing: int, i: int) -> int {
    sat_add(start_x, sat_mul(i, spacing))
}

/// The radius of dot `i` of a row of dots.
pub open spec fn dot_radius(first: int, last: int, highlight_radius: int, radius: int, i: int) -> int {
    if first <= i < last {
        highlight_radius
    } else {
        radius
    }
}

proof fn lemma_dots_inside(
    canvas: Seq<u8>,
    width: int,
    height: int,
    start_x: int,
    center_y: int,
    spacing: int,
    count: nat,
    first: int,
    last: int,
    highlight_radius: int,
    highlight_color: Rgba,
    radius: int,
    color: Rgba,
    prompt: Rectangle,
)
    requires
        width >= 1,
        0 <= start_x,
        0 <= center_y,
        0 <= spacing,
        forall|i: int|
            0 <= i < count ==> disc_fits(
                prompt,
                width,
                height,
                #[trigger] dot_center(start_x, spacing, i),
                center_y,
                dot_radius(first, last, highlight_radius, radius, i),
            ),
    ensures
        outside_unchanged(
            canvas,
            spec_dots(
                canvas,
                width,
                height,
                start_x,
                center_y,
                spacing,
                count,
                first,
                last,
                highlight_radius,
                highlight_color,
                radius,
                color,
            ),
            width,
            prompt,
        ),
    decreases count,
{
    if count == 0 {
        assert(outside_unchanged(canvas, canvas, width, prompt));
    } else {
        let previous = spec_dots(
            canvas,
            width,
            height,
            start_x,
            center_y,
            spacing,
            (count - 1) as nat,
            first,
            last,
            highlight_radius,
            highlight_color,
            radius,
            color,
        );
        lemma_dots_inside(
            canvas,
            width,
            height,
            start_x,
            center_y,
            spacing,
            (count - 1) as nat,
            first,
            last,
            highlight_radius,
            highlight_color,
            radius,
            color,
            prompt,
        );
        let index = count - 1;
        assert(disc_fits(
            prompt,
            width,
            height,
            dot_center(start_x, spacing, index),
            center_y,
            dot_radius(first, last, highlight_radius, radius, index),
        ));
        let highlighted = first <= index < last;
        lemma_fill_circle_inside(
            previous,
            width,
            height,
            sat_add(start_x, sat_mul(index, spacing)),
            center_y,
            if highlighted {
                highlight_radius
            } else {
                radius
            },
            if highlighted {
                highlight_color
            } else {
                color
            },
            prompt,
        );
        lemma_outside_unchanged_chains(
            canvas,
            previous,
            spec_dots(
                canvas,
                width,
                height,
                start_x,
                center_y,
                spacing,
                count,
                first,
                last,
                highlight_radius,
                highlight_color,
                radius,
                color,
            ),
            width,
            prompt,
        );
    }
}

/// `a * b <= c` when `a` is at most `c / b`.
proof fn lemma_quotient_bound(a: int, b: int, c: int)
    requires
        0 <= a,
        0 < b,
        0 <= c,
        a <= c / b,
    ensures
        a * b <= c,
{
    vstd::arithmetic::div_mod::lemma_fundamental_div_mod(c, b);
    vstd::arithmetic::mul::lemma_mul_inequality(a, c / b, b);
    assert(c / b * b == b * (c / b)) by (nonlinear_arith);
}

/// Every dot of a row of `count` dots with the given radii fits in `prompt`, when
/// the spacing was fitted for radius `fitted` and the row is centered; the last dot
/// may reach one pixel too far only in the case that `reaches_edge` names.
proof fn lemma_centered_row_fits(
    prompt: Rectangle,
    width: int,
    height: int,
    count: int,
    configured_spacing: int,
    fitted: int,
    first: int,
    last: int,
    highlight_radius: int,
    radius: int,
)
    requires
        1 <= prompt.width,
        1 <= prompt.height,
        prompt.x + prompt.width <= width <= usize::MAX,
        prompt.y + prompt.height <= height <= usize::MAX,
        0 <= configured_spacing,
        0 <= highlight_radius <= fitted,
        0 <= radius <= fitted,
        fitted <= spec_maximum_dot_radius(prompt),
        count >= 0,
        !reaches_edge(prompt, width, count, configured_spacing, fitted, first, last, highlight_radius, radius),
    ensures
        ({
            let spacing = spec_fitted_spacing(prompt, count, configured_spacing, fitted);
            let span = sat_mul(sat_sub(count, 1), spacing);
            let start_x = sat_sub(prompt_center_x(prompt), span / 2);
            forall|i: int|
                0 <= i < count ==> disc_fits(
                    prompt,
                    width,
                    height,
                    #[trigger] dot_center(start_x, spacing, i),
                    prompt_center_y(prompt),
                    dot_radius(first, last, highlight_radius, radius, i),
                )
        }),
{
    let w = prompt.width as int;
    let h = prompt.height as int;
    let x = prompt.x as int;
    let spacing = spec_fitted_spacing(prompt, count, configured_spacing, fitted);
    let room = w - 1 - 2 * fitted;
    assert(room >= 0);
    if count >= 2 {
        lemma_quotient_bound(spacing, count - 1, room);
    }
    let span = sat_mul(sat_sub(count, 1), spacing);
    assert(count >= 2 ==> span == (count - 1) * spacing);
    assert(count < 2 ==> span == 0);
    assert(span <= room);
    let start_x = sat_sub(prompt_center_x(prompt), span / 2);
    assert(start_x == x + w / 2 - span / 2);
    let maximum = spec_maximum_dot_radius(prompt);
    assert(maximum <= (h - 1) / 2);
    assert(maximum <= (w - 1) / 2);
    assert(span / 2 <= w / 2 - fitted);
    assert(span - span / 2 <= w - w / 2 - fitted);
    assert forall|i: int| 0 <= i < count implies disc_fits(
        prompt,
        width,
        height,
        #[trigger] dot_center(start_x, spacing, i),
        prompt_center_y(prompt),
        dot_radius(first, last, highlight_radius, radius, i),
    ) by {
        let r = dot_radius(first, last, highlight_radius, radius, i);
        vstd::arithmetic::mul::lemma_mul_inequality(i, count - 1, spacing);
        assert(0 <= i * spacing) by (nonlinear_arith)
            requires
                0 <= i,
                0 <= spacing,
        ;
        assert(i * spacing <= span);
        let center = start_x + i * spacing;
        assert(dot_center(start_x, spacing, i) == center);
        assert(center - r >= x);
        assert(prompt_center_y(prompt) == prompt.y + h / 2);
        if i < count - 1 {
            vstd::arithmetic::mul::lemma_mul_inequality(i, count - 2, spacing);
            assert((count - 2) * spacing == (count - 1) * spacing - spacing) by (nonlinear_arith);
            assert(i * spacing <= span - spacing);
            if spacing == 0 {
                assert(span == 0) by (nonlinear_arith)
                    requires
                        count >= 2,
                        span == (count - 1) * spacing,
                        spacing == 0,
                ;
            }
            assert(center + r <= x + w - 1);
        } else {
            assert(i * spacing == span) by (nonlinear_arith)
                requires
                    i == count - 1,
                    count >= 2 ==> span == (count - 1) * spacing,
                    count < 2 ==> span == 0,
                    count >= 1,
            ;
            assert(center == x + w / 2 + (span - span / 2));
            if prompt.x + prompt.width >= width {
                assert(min(center + r, sat_sub(width, 1)) <= x + w - 1);
            } else if w % 2 == 1 {
                assert(center + r <= x + w - 1);
            } else if count < 2 {
                assert(center + r <= x + w - 1);
            } else if span != w - 1 - 2 * fitted {
                assert(center + r <= x + w - 1);
            } else {
                assert(r < fitted);
                assert(center + r <= x + w - 1);
            }
        }
    }
}

/// The single case in which the ready indicator reaches one pixel past the
/// prompt's right edge: an even prompt width, a row of at least two dots spread
/// over exactly the room there is, a last dot of the largest radius, and room in
/// the surface to the right of the prompt.
pub open spec fn reaches_edge(
    prompt: Rectangle,
    width: int,
    count: int,
    configured_spacing: int,
    fitted: int,
    first: int,
    last: int,
    highlight_radius: int,
    radius: int,
) -> bool {
    let spacing = spec_fitted_spacing(prompt, count, configured_spacing, fitted);
    let span = sat_mul(sat_sub(count, 1), spacing);
    &&& prompt.width % 2 == 0
    &&& count >= 2
    &&& span == prompt.width - 1 - 2 * fitted
    &&& dot_radius(first, last, highlight_radius, radius, count - 1) == fitted
    &&& prompt.x + prompt.width < width
}

/// Whether the ready indicator for `password_length` characters is in the case of
/// [`reaches_edge`].
pub open spec fn ready_indicator_reaches_edge(
    width: int,
    height: int,
    password_length: int,
    style: PromptStyle,
) -> bool {
    let prompt = spec_prompt_rectangle(width, height, style);
    let count = clamp(password_length, style.min_dots as int, style.max_characters as int);
    let maximum = spec_maximum_dot_radius(prompt);
    let empty_radius = min(style.empty_dot_radius as int, maximum);
    let filled_radius = min(style.filled_dot_radius as int, maximum);
    reaches_edge(
        prompt,
        width,
        count,
        style.dot_spacing as int,
        max(empty_radius, filled_radius),
        0,
        password_length,
        filled_radius,
        empty_radius,
    )
}

/// The prompt's drawing is clipped to the prompt rectangle: drawing the prompt
/// changes no pixel outside it, for a prompt of at least 24 by 16 pixels (the
/// smallest that the configuration accepts). The one exception is the ready
/// indicator in the case of [`ready_indicator_reaches_edge`], whose last dot then
/// reaches one pixel past the right edge.
pub proof fn lemma_prompt_stays_inside(
    canvas: Seq<u8>,
    width: int,
    height: int,
    password_length: int,
    state: PromptState,
    style: PromptStyle,
)
    requires
        width <= usize::MAX,
        height <= usize::MAX,
        style.width >= 24,
        style.height >= 16,
        style.min_dots <= style.max_characters,
        !(state == PromptState::Ready && ready_indicator_reaches_edge(
            width,
            height,
            password_length,
            style,
        )),
    ensures
        outside_unchanged(
            canvas,
            spec_lock_prompt(canvas, width, height, password_length, state, style),
            width,
            spec_prompt_rectangle(width, height, style),
        ),
{
    let prompt = spec_prompt_rectangle(width, height, style);
    if width < 80 || height < 80 {
        assert(outside_unchanged(canvas, canvas, width, prompt));
        return;
    }
    let w = prompt.width as int;
    let h = prompt.height as int;
    assert(w >= 24 && h >= 16);
    assert(prompt.x + w <= width && prompt.y + h <= height);
    let ready = ready_background(style);
    let feedback = feedback_background(style);
    let fill_color = match state {
        PromptState::Ready | PromptState::Authenticating => ready,
        _ => feedback,
    };
    lemma_fill_rect_inside(
        canvas,
        width,
        height,
        prompt.x as int,
        prompt.y as int,
        w,
        h,
        fill_color,
        prompt,
    );
    let filled = spec_fill_prompt(canvas, width, height, prompt, fill_color);
    let maximum = spec_maximum_dot_radius(prompt);
    match state {
        PromptState::Ready => {
            let count = clamp(password_length, style.min_dots as int, style.max_characters as int);
            let empty_radius = min(style.empty_dot_radius as int, maximum);
            let filled_radius = min(style.filled_dot_radius as int, maximum);
            let fitted = max(empty_radius, filled_radius);
            lemma_centered_row_fits(
                prompt,
                width,
                height,
                count,
                style.dot_spacing as int,
                fitted,
                0,
                password_length,
                filled_radius,
                empty_radius,
            );
            let spacing = spec_fitted_spacing(prompt, count, style.dot_spacing as int, fitted);
            let span = sat_mul(sat_sub(count, 1), spacing);
            lemma_dots_inside(
                filled,
                width,
                height,
                sat_sub(prompt_center_x(prompt), span / 2),
                prompt_center_y(prompt),
                spacing,
                count as nat,
                0,
                password_length,
                filled_radius,
                spec_opaque_over(rgba_of(style.filled_dot_color), ready),
                empty_radius,
                spec_opaque_over(rgba_of(style.empty_dot_color), ready),
                prompt,
            );
        },
        PromptState::Authenticating | PromptState::Cooldown => {
            let color = if state == PromptState::Authenticating {
                spec_opaque_over(rgba_of(style.filled_dot_color), ready)
            } else {
                spec_opaque_over(rgba_of(style.empty_dot_color), feedback)
            };
            let radius = min(style.filled_dot_radius as int, maximum);
            let three_spacing = spec_fitted_spacing(prompt, 3, style.dot_spacing as int, radius);
            assert(sat_mul(sat_sub(3, 1), three_spacing) == 2 * three_spacing);
            lemma_centered_row_fits(
                prompt,
                width,
                height,
                3,
                style.dot_spacing as int,
                radius,
                0,
                3,
                radius,
                radius,
            );
            let spacing = spec_fitted_spacing(prompt, 3, style.dot_spacing as int, radius);
            assert(sat_mul(sat_sub(3, 1), spacing) == sat_mul(2, spacing));
            lemma_dots_inside(
                filled,
                width,
                height,
                sat_sub(prompt_center_x(prompt), sat_mul(2, spacing) / 2),
                prompt_center_y(prompt),
                spacing,
                3,
                0,
                3,
                radius,
                color,
                radius,
                color,
                prompt,
            );
        },
        PromptState::Failure => {
            let color = spec_opaque_over(rgba_of(style.feedback_accent_color), feedback);
            let center_x = prompt_center_x(prompt);
            let center_y = prompt_center_y(prompt);
            let marker_width = clamp(h / 8, 1, 4);
            let marker_height = clamp(h / 3, 3, 11);
            lemma_fill_rect_inside(
                filled,
                width,
                height,
                sat_sub(center_x, marker_width / 2),
                sat_sub(center_y, h / 4),
                marker_width,
                marker_height,
                color,
                prompt,
            );
            let with_bar = spec_fill_rect(
                filled,
                width,
                height,
                sat_sub(center_x, marker_width / 2),
                sat_sub(center_y, h / 4),
                marker_width,
                marker_height,
                color,
            );
            let dot_y = sat_add(prompt.y as int, sat_mul(h, 3) / 4);
            lemma_fill_circle_inside(
                with_bar,
                width,
                height,
                center_x,
                dot_y,
                clamp(h / 12, 1, 2),
                color,
                prompt,
            );
            lemma_outside_unchanged_chains(
                filled,
                with_bar,
                spec_fill_circle(
                    with_bar,
                    width,
                    height,
                    center_x,
                    dot_y,
                    clamp(h / 12, 1, 2),
                    color,
                ),
                width,
                prompt,
            );
        },
    }
    lemma_outside_unchanged_chains(
        canvas,
        filled,
        spec_lock_prompt(canvas, width, height, password_length, state, style),
        width,
        prompt,
    );
}

/// In a lock frame, every whole pixel outside the prompt rectangle shows the
/// fallback color, under the conditions of [`lemma_prompt_stays_inside`].
pub proof fn lemma_frame_outside_prompt_is_background(
    canvas: Seq<u8>,
    width: int,
    height: int,
    password_length: int,
    state: PromptState,
    style: PromptStyle,
    k: int,
)
    requires
        width <= usize::MAX,
        height <= usize::MAX,
        style.width >= 24,
        style.height >= 16,
        style.min_dots <= style.max_characters,
        !(state == PromptState::Ready && ready_indicator_reaches_edge(
            width,
            height,
            password_length,
            style,
        )),
        0 <= k < canvas.len(),
        whole_pixel(canvas.len() as int, k),
        !in_prompt(
            spec_prompt_rectangle(width, height, style),
            column_of(width, k),
            row_of(width, k),
        ),
    ensures
        spec_lock_frame(canvas, width, height, password_length, state, style)[k] == color_byte(
            spec_background(),
            channel_of(k),
        ),
{
    lemma_prompt_stays_inside(
        fill_all(canvas, spec_background()),
        width,
        height,
        password_length,
        state,
        style,
    );
}

proof fn lemma_paint_keeps_agreement(
    first: Seq<u8>,
    second: Seq<u8>,
    width: int,
    region: spec_fn(int, int) -> bool,
    color: Rgba,
    k: int,
)
    requires
        first.len() == second.len(),
        0 <= k < first.len(),
        first[k] == second[k],
    ensures
        paint(first, width, region, color)[k] == paint(second, width, region, color)[k],
{
}

proof fn lemma_dots_keep_agreement(
    first: Seq<u8>,
    second: Seq<u8>,
    width: int,
    height: int,
    start_x: int,
    center_y: int,
    spacing: int,
    count: nat,
    first_highlight: int,
    last_highlight: int,
    highlight_radius: int,
    highlight_color: Rgba,
    radius: int,
    color: Rgba,
    k: int,
)
    requires
        first.len() == second.len(),
        0 <= k < first.len(),
        first[k] == second[k],
    ensures
        spec_dots(
            first,
            width,
            height,
            start_x,
            center_y,
            spacing,
            count,
            first_highlight,
            last_highlight,
            highlight_radius,
            highlight_color,
            radius,
            color,
        ).len() == first.len(),
        spec_dots(
            first,
            width,
            height,
            start_x,
            center_y,
            spacing,
            count,
            first_highlight,
            last_highlight,
            highlight_radius,
            highlight_color,
            radius,
            color,
        )[k] == spec_dots(
            second,
            width,
            height,
            start_x,
            center_y,
            spacing,
            count,
            first_highlight,
            last_highlight,
            highlight_radius,
            highlight_color,
            radius,
            color,
        )[k],
    decreases count,
{
    if count > 0 {
        lemma_dots_keep_agreement(
            first,
            second,
            width,
            height,
            start_x,
            center_y,
            spacing,
            (count - 1) as nat,
            first_highlight,
            last_highlight,
            highlight_radius,
            highlight_color,
            radius,
            color,
            k,
        );
        let previous_first = spec_dots(
            first,
            width,
            height,
            start_x,
            center_y,
            spacing,
            (count - 1) as nat,
            first_highlight,
            last_highlight,
            highlight_radius,
            highlight_color,
            radius,
            color,
        );
        let previous_second = spec_dots(
            second,
            width,
            height,
            start_x,
            center_y,
            spacing,
            (count - 1) as nat,
            first_highlight,
            last_highlight,
            highlight_radius,
            highlight_color,
            radius,
            color,
        );
        lemma_dots_keep_length(
            second,
            width,
            height,
            start_x,
            center_y,
            spacing,
            (count - 1) as nat,
            first_highlight,
            last_highlight,
            highlight_radius,
            highlight_color,
            radius,
            color,
        );
        let index = count - 1;
        let highlighted = first_highlight <= index < last_highlight;
        let r = if highlighted {
            highlight_radius
        } else {
            radius
        };
        let c = if highlighted {
            highlight_color
        } else {
            color
        };
        let cx = sat_add(start_x, sat_mul(index, spacing));
        lemma_paint_keeps_agreement(
            previous_first,
            previous_second,
            width,
            |px: int, py: int| in_disc(cx, center_y, r, width, height, px, py),
            c,
            k,
        );
    }
}

proof fn lemma_dots_keep_length(
    canvas: Seq<u8>,
    width: int,
    height: int,
    start_x: int,
    center_y: int,
    spacing: int,
    count: nat,
    first_highlight: int,
    last_highlight: int,
    highlight_radius: int,
    highlight_color: Rgba,
    radius: int,
    color: Rgba,
)
    ensures
        spec_dots(
            canvas,
            width,
            height,
            start_x,
            center_y,
            spacing,
            count,
            first_highlight,
            last_highlight,
            highlight_radius,
            highlight_color,
            radius,
            color,
        ).len() == canvas.len(),
    decreases count,
{
    if count > 0 {
        lemma_dots_keep_length(
            canvas,
            width,
            height,
            start_x,
            center_y,
            spacing,
            (count - 1) as nat,
            first_highlight,
            last_highlight,
            highlight_radius,
            highlight_color,
            radius,
            color,
        );
    }
}

/// What the prompt shows inside its rectangle does not depend on the canvas
/// underneath: text or images drawn before the prompt cannot show through it.
pub proof fn lemma_prompt_covers_its_rectangle(
    first: Seq<u8>,
    second: Seq<u8>,
    width: int,
    height: int,
    password_length: int,
    state: PromptState,
    style: PromptStyle,
    k: int,
)
    requires
        80 <= width <= usize::MAX,
        80 <= height <= usize::MAX,
        first.len() == second.len(),
        0 <= k < first.len(),
        whole_pixel(first.len() as int, k),
        in_prompt(
            spec_prompt_rectangle(width, height, style),
            column_of(width, k),
            row_of(width, k),
        ),
    ensures
        spec_lock_prompt(first, width, height, password_length, state, style)[k]
            == spec_lock_prompt(second, width, height, password_length, state, style)[k],
{
    let prompt = spec_prompt_rectangle(width, height, style);
    let ready = ready_background(style);
    let feedback = feedback_background(style);
    let fill_color = match state {
        PromptState::Ready | PromptState::Authenticating => ready,
        _ => feedback,
    };
    let filled_first = spec_fill_prompt(first, width, height, prompt, fill_color);
    let filled_second = spec_fill_prompt(second, width, height, prompt, fill_color);
    assert(filled_first[k] == filled_second[k]);
    let maximum = spec_maximum_dot_radius(prompt);
    match state {
        PromptState::Ready => {
            let count = clamp(password_length, style.min_dots as int, style.max_characters as int);
            let empty_radius = min(style.empty_dot_radius as int, maximum);
            let filled_radius = min(style.filled_dot_radius as int, maximum);
            let spacing = spec_fitted_spacing(
                prompt,
                count,
                style.dot_spacing as int,
                max(empty_radius, filled_radius),
            );
            let span = sat_mul(sat_sub(count, 1), spacing);
            lemma_dots_keep_agreement(
                filled_first,
                filled_second,
                width,
                height,
                sat_sub(prompt_center_x(prompt), span / 2),
                prompt_center_y(prompt),
                spacing,
                count as nat,
                0,
                password_length,
                filled_radius,
                spec_opaque_over(rgba_of(style.filled_dot_color), ready),
                empty_radius,
                spec_opaque_over(rgba_of(style.empty_dot_color), ready),
                k,
            );
        },
        PromptState::Authenticating | PromptState::Cooldown => {
            let color = if state == PromptState::Authenticating {
                spec_opaque_over(rgba_of(style.filled_dot_color), ready)
            } else {
                spec_opaque_over(rgba_of(style.empty_dot_color), feedback)
            };
            let radius = min(style.filled_dot_radius as int, maximum);
            let spacing = spec_fitted_spacing(prompt, 3, style.dot_spacing as int, radius);
            lemma_dots_keep_agreement(
                filled_first,
                filled_second,
                width,
                height,
                sat_sub(prompt_center_x(prompt), sat_mul(2, spacing) / 2),
                prompt_center_y(prompt),
                spacing,
                3,
                0,
                3,
                radius,
                color,
                radius,
                color,
                k,
            );
        },
        PromptState::Failure => {},
    }
}

} // verus!
