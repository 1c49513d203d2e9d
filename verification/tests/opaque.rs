use luma::config::Color;
use luma::renderer::BackgroundImage;
use luma::wayland::opaque::{
    background, draw_captured_background, draw_lock_frame, draw_lock_prompt, draw_lock_visual_feedback, fill_circle, fill_rect,
    fitted_spacing, maximum_dot_radius, opaque_over, prompt_rectangle, shifted_prompt,
    PromptState, PromptStyle, Rectangle, Rgba,
};

/// The `[input]` settings that the prompt reads, before rounding.
struct Settings {
    x: f32,
    y: f32,
    width: f32,
    height: f32,
    max_characters: usize,
    min_dots: usize,
    dot_spacing: f32,
    empty_dot_radius: f32,
    filled_dot_radius: f32,
    background_color: Color,
    empty_dot_color: Color,
    filled_dot_color: Color,
    feedback_background_color: Color,
    feedback_accent_color: Color,
    error_color: Color,
}

impl Default for Settings {
    fn default() -> Self {
        Settings {
            x: 0.5,
            y: 0.925,
            width: 156.0,
            height: 34.0,
            max_characters: 12,
            min_dots: 6,
            dot_spacing: 10.0,
            empty_dot_radius: 2.1,
            filled_dot_radius: 2.7,
            background_color: Color::rgba(0, 0, 0, 155),
            empty_dot_color: Color::rgba(255, 255, 255, 62),
            filled_dot_color: Color::rgb(236, 244, 240),
            feedback_background_color: Color::rgba(38, 92, 72, 210),
            feedback_accent_color: Color::rgb(190, 244, 216),
            error_color: Color::rgb(255, 138, 128),
        }
    }
}

fn rounded_size(value: f32) -> usize {
    (value.round() as usize).max(1)
}

fn style(settings: &Settings, width: usize, height: usize) -> PromptStyle {
    PromptStyle {
        width: settings.width.round() as usize,
        height: settings.height.round() as usize,
        center_x: (settings.x * width as f32).round() as usize,
        center_y: (settings.y * height as f32).round() as usize,
        dot_spacing: rounded_size(settings.dot_spacing),
        empty_dot_radius: rounded_size(settings.empty_dot_radius),
        filled_dot_radius: rounded_size(settings.filled_dot_radius),
        min_dots: settings.min_dots,
        max_characters: settings.max_characters,
        background_color: settings.background_color,
        empty_dot_color: settings.empty_dot_color,
        filled_dot_color: settings.filled_dot_color,
        feedback_background_color: settings.feedback_background_color,
        feedback_accent_color: settings.feedback_accent_color,
        error_color: settings.error_color,
    }
}

fn encoded(color: Rgba) -> [u8; 4] {
    [color.blue, color.green, color.red, color.alpha]
}

fn pixel(canvas: &[u8], width: usize, x: usize, y: usize) -> &[u8] {
    let index = (y * width + x) * 4;
    &canvas[index..index + 4]
}

#[test]
fn draws_an_opaque_background_for_small_outputs() {
    let mut canvas = vec![0; 4 * 32 * 32];
    let config = style(&Settings::default(), 32, 32);

    draw_lock_frame(&mut canvas, 32, 32, 0, PromptState::Ready, &config);

    assert_eq!(canvas[..4], encoded(background()));
    assert!(canvas.chunks_exact(4).all(|pixel| pixel == encoded(background())));
}

#[test]
fn fills_dots_without_rendering_password_contents() {
    let width = 200;
    let height = 120;
    let mut empty_canvas = vec![0; width * height * 4];
    let mut filled_canvas = vec![0; width * height * 4];
    let settings = Settings::default();
    let config = style(&settings, width, height);

    draw_lock_frame(&mut empty_canvas, 200, 120, 0, PromptState::Ready, &config);
    draw_lock_frame(&mut filled_canvas, 200, 120, 1, PromptState::Ready, &config);

    let center_x = 75;
    let center_y = 103;
    assert_ne!(
        pixel(&empty_canvas, width, center_x, center_y),
        pixel(&filled_canvas, width, center_x, center_y)
    );
    assert_eq!(
        pixel(&filled_canvas, width, center_x, center_y),
        encoded(opaque_over(
            Rgba::from_config(settings.filled_dot_color),
            opaque_over(Rgba::from_config(settings.background_color), background()),
        ))
    );
}

#[test]
fn failure_feedback_hides_password_length() {
    let width = 200;
    let height = 120;
    let mut short_password = vec![0; width * height * 4];
    let mut long_password = vec![0; width * height * 4];
    let settings = Settings::default();
    let config = style(&settings, width, height);

    draw_lock_frame(&mut short_password, 200, 120, 1, PromptState::Failure, &config);
    draw_lock_frame(&mut long_password, 200, 120, 12, PromptState::Failure, &config);

    assert_eq!(short_password, long_password);
    assert_eq!(
        pixel(&short_password, width, 100, 95),
        encoded(opaque_over(
            Rgba::from_config(settings.feedback_accent_color),
            opaque_over(Rgba::from_config(settings.feedback_background_color), background()),
        ))
    );
}

#[test]
fn feedback_states_remain_fully_opaque() {
    for prompt_state in [
        PromptState::Authenticating,
        PromptState::Failure,
        PromptState::Cooldown,
    ] {
        let mut canvas = vec![0; 200 * 120 * 4];
        let config = style(&Settings::default(), 200, 120);

        draw_lock_frame(&mut canvas, 200, 120, 8, prompt_state, &config);

        assert!(canvas.chunks_exact(4).all(|pixel| pixel[3] == 255));
    }
}

#[test]
fn applies_configured_prompt_geometry_and_color() {
    let width = 200;
    let height = 120;
    let settings = Settings {
        x: 0.25,
        y: 0.5,
        width: 80.0,
        height: 20.0,
        background_color: Color::rgb(11, 22, 33),
        ..Settings::default()
    };
    let config = style(&settings, width, height);
    let mut canvas = vec![0; width * height * 4];

    draw_lock_frame(&mut canvas, 200, 120, 0, PromptState::Ready, &config);

    assert_eq!(pixel(&canvas, width, 10, 50), encoded(Rgba::new(11, 22, 33, 255)));
    assert_eq!(pixel(&canvas, width, 100, 103), encoded(background()));
}

#[test]
fn keeps_the_real_lock_prompt_visible_when_demo_input_is_disabled() {
    let width = 200;
    let height = 120;
    let settings = Settings {
        background_color: Color::rgb(11, 22, 33),
        ..Settings::default()
    };
    let config = style(&settings, width, height);
    let mut canvas = vec![0; width * height * 4];

    draw_lock_frame(&mut canvas, 200, 120, 0, PromptState::Ready, &config);

    assert_eq!(pixel(&canvas, width, 22, 86), encoded(Rgba::new(11, 22, 33, 255)));
}

#[test]
fn confines_extreme_indicator_geometry_to_the_prompt() {
    let width = 200;
    let height = 120;
    let settings = Settings {
        x: 0.5,
        y: 0.5,
        width: 24.0,
        height: 16.0,
        max_characters: 64,
        min_dots: 64,
        dot_spacing: 64.0,
        empty_dot_radius: 32.0,
        filled_dot_radius: 32.0,
        background_color: Color::rgb(1, 2, 3),
        empty_dot_color: Color::rgb(4, 5, 6),
        filled_dot_color: Color::rgb(7, 8, 9),
        feedback_background_color: Color::rgb(10, 11, 12),
        feedback_accent_color: Color::rgb(13, 14, 15),
        ..Settings::default()
    };
    let config = style(&settings, width, height);

    for prompt_state in [
        PromptState::Ready,
        PromptState::Authenticating,
        PromptState::Failure,
        PromptState::Cooldown,
    ] {
        let mut canvas = vec![0; width * height * 4];
        draw_lock_frame(&mut canvas, 200, 120, 64, prompt_state, &config);

        for (index, pixel) in canvas.chunks_exact(4).enumerate() {
            let x = index % width;
            let y = index / width;
            if !(88..112).contains(&x) || !(52..68).contains(&y) {
                assert_eq!(pixel, encoded(background()));
            }
        }
    }
}

#[test]
fn ignores_invalid_dimensions() {
    let mut canvas = vec![0; 16];
    let config = style(&Settings::default(), 4, 4);

    draw_lock_frame(&mut canvas, -1, 4, 3, PromptState::Failure, &config);

    assert_eq!(canvas, vec![0; 16]);
}

#[test]
fn visual_feedback_hides_password_length_and_animates() {
    let width = 240;
    let height = 140;
    let config = style(&Settings::default(), width, height);
    let mut short_password = vec![0; width * height * 4];
    let mut long_password = vec![0; width * height * 4];
    let mut next_frame = vec![0; width * height * 4];

    for (canvas, password_length) in [(&mut short_password, 1), (&mut long_password, 12)] {
        draw_lock_frame(canvas, 240, 140, password_length, PromptState::Authenticating, &config);
        draw_lock_visual_feedback(canvas, 240, 140, PromptState::Authenticating, &config, 0);
    }
    draw_lock_frame(&mut next_frame, 240, 140, 1, PromptState::Authenticating, &config);
    draw_lock_visual_feedback(&mut next_frame, 240, 140, PromptState::Authenticating, &config, 1);

    assert_eq!(short_password, long_password);
    assert_ne!(short_password, next_frame);
    assert!(short_password.chunks_exact(4).all(|pixel| pixel[3] == 255));
}

#[test]
fn failure_and_cooldown_feedback_stay_opaque_and_ready_draws_nothing() {
    let width = 240;
    let height = 140;
    let config = style(&Settings::default(), width, height);
    for frame in 0..9 {
        for prompt_state in [PromptState::Failure, PromptState::Cooldown] {
            let mut canvas = vec![0; width * height * 4];
            draw_lock_frame(&mut canvas, 240, 140, 5, prompt_state, &config);
            draw_lock_visual_feedback(&mut canvas, 240, 140, prompt_state, &config, frame);
            assert!(canvas.chunks_exact(4).all(|pixel| pixel[3] == 255));
        }
    }
    let mut canvas = vec![7; width * height * 4];
    draw_lock_visual_feedback(&mut canvas, 240, 140, PromptState::Ready, &config, 3);
    assert!(canvas.iter().all(|byte| *byte == 7));
}

#[test]
fn compositing_rounds_and_ignores_the_background_alpha() {
    let color = opaque_over(Rgba::new(255, 0, 100, 128), Rgba::new(0, 255, 100, 0));
    assert_eq!(color, Rgba::new(128, 127, 100, 255));
    assert_eq!(
        opaque_over(Rgba::new(9, 8, 7, 255), background()),
        Rgba::new(9, 8, 7, 255)
    );
    assert_eq!(opaque_over(Rgba::new(9, 8, 7, 0), background()), background());
}

#[test]
fn prompt_geometry_is_clamped_to_the_surface() {
    let mut config = style(&Settings::default(), 100, 100);
    config.width = 500;
    config.height = 0;
    config.center_x = 0;
    config.center_y = 1000;
    let prompt = prompt_rectangle(100, 100, &config);
    assert_eq!(prompt, Rectangle { x: 0, y: 99, width: 100, height: 1 });
    assert_eq!(maximum_dot_radius(prompt), 0);
    assert_eq!(fitted_spacing(Rectangle { x: 0, y: 0, width: 101, height: 20 }, 3, 64, 5), 45);
    assert_eq!(fitted_spacing(Rectangle { x: 0, y: 0, width: 101, height: 20 }, 1, 64, 5), 0);
}

#[test]
fn failure_shake_moves_the_prompt_within_the_surface() {
    let prompt = Rectangle { x: 2, y: 10, width: 50, height: 20 };
    let offsets: Vec<usize> = (0..10).map(|frame| shifted_prompt(prompt, 100, frame).x).collect();
    assert_eq!(offsets, vec![2, 0, 6, 0, 5, 1, 3, 2, 2, 2]);
    let edge = Rectangle { x: 49, y: 0, width: 50, height: 20 };
    assert_eq!(shifted_prompt(edge, 100, 2).x, 50);
}

#[test]
fn rectangles_and_circles_are_clipped_to_the_canvas() {
    let red = Rgba::new(255, 0, 0, 255);
    let mut canvas = vec![0; 4 * 4 * 4];
    fill_rect(&mut canvas, 4, 4, 2, 3, 10, 10, red);
    for y in 0..4 {
        for x in 0..4 {
            let expected = if x >= 2 && y >= 3 { encoded(red) } else { [0; 4] };
            assert_eq!(pixel(&canvas, 4, x, y), expected);
        }
    }
    let mut canvas = vec![0; 5 * 5 * 4];
    fill_circle(&mut canvas, 5, 5, 0, 0, 1, red);
    let painted: Vec<(usize, usize)> = (0..25)
        .filter(|index| canvas[index * 4 + 3] == 255)
        .map(|index| (index % 5, index / 5))
        .collect();
    assert_eq!(painted, vec![(0, 0), (1, 0), (0, 1)]);
}

#[test]
fn captured_backgrounds_of_the_surface_size_are_dimmed() {
    let source = [200, 100, 50, 0, 10, 20, 30, 0];
    let image = BackgroundImage::from_argb8888(2, 1, 8, &source, false).expect("valid image");
    let mut canvas = vec![0; 8];
    draw_captured_background(&mut canvas, 2, 1, &image, Color::rgba(0, 0, 0, 128));
    assert_eq!(canvas, vec![100, 50, 25, 255, 5, 10, 15, 255]);

    let mut other_size = vec![9; 16];
    draw_captured_background(&mut other_size, 2, 2, &image, Color::rgba(0, 0, 0, 128));
    assert_eq!(other_size, vec![9; 16]);

    let mut negative = vec![9; 8];
    draw_captured_background(&mut negative, -2, 1, &image, Color::rgba(0, 0, 0, 128));
    assert_eq!(negative, vec![9; 8]);
}

#[test]
fn a_full_width_pair_of_dots_reaches_one_pixel_past_an_even_prompt() {
    let width = 200;
    let height = 120;
    let settings = Settings {
        x: 0.5,
        y: 0.5,
        width: 24.0,
        height: 16.0,
        max_characters: 2,
        min_dots: 2,
        dot_spacing: 64.0,
        empty_dot_radius: 32.0,
        filled_dot_radius: 32.0,
        ..Settings::default()
    };
    let config = style(&settings, width, height);
    let mut canvas = vec![0; width * height * 4];

    draw_lock_frame(&mut canvas, 200, 120, 2, PromptState::Ready, &config);

    assert_eq!(prompt_rectangle(200, 120, &config), Rectangle { x: 88, y: 52, width: 24, height: 16 });
    assert_ne!(pixel(&canvas, width, 112, 60), encoded(background()));
    assert_eq!(pixel(&canvas, width, 113, 60), encoded(background()));
    assert_eq!(pixel(&canvas, width, 87, 60), encoded(background()));
}

#[test]
fn the_prompt_covers_whatever_was_drawn_under_it() {
    let width = 200;
    let height = 120;
    let config = style(&Settings::default(), width, height);
    for prompt_state in [
        PromptState::Ready,
        PromptState::Authenticating,
        PromptState::Failure,
        PromptState::Cooldown,
    ] {
        let mut clean = vec![0; width * height * 4];
        let mut scribbled: Vec<u8> = (0..width * height * 4).map(|index| (index * 7 % 251) as u8).collect();
        draw_lock_prompt(&mut clean, width, height, 4, prompt_state, &config);
        draw_lock_prompt(&mut scribbled, width, height, 4, prompt_state, &config);
        let prompt = prompt_rectangle(200, 120, &config);
        for y in prompt.y..prompt.y + prompt.height {
            for x in prompt.x..prompt.x + prompt.width {
                assert_eq!(pixel(&clean, width, x, y), pixel(&scribbled, width, x, y));
            }
        }
        assert_eq!(pixel(&scribbled, width, 0, 0), &[0, 7, 14, 21]);
    }
}

#[test]
fn circles_on_canvases_without_rows_or_columns_reach_the_first_line() {
    let red = Rgba::new(255, 0, 0, 255);
    let mut no_rows = vec![0; 3 * 4];
    fill_circle(&mut no_rows, 3, 0, 1, 0, 0, red);
    assert_eq!(&no_rows[..4], &[0; 4]);
    assert_eq!(&no_rows[4..8], &encoded(red));
    assert_eq!(&no_rows[8..], &[0; 4]);

    let mut no_columns = vec![0; 2 * 4];
    fill_circle(&mut no_columns, 0, 2, 0, 1, 1, red);
    assert_eq!(&no_columns[..4], &encoded(red));
    assert_eq!(&no_columns[4..], &[0; 4]);

    let mut out_of_reach = vec![0; 2 * 4];
    fill_circle(&mut out_of_reach, 0, 2, 3, 0, 1, red);
    assert_eq!(out_of_reach, vec![0; 8]);
}
