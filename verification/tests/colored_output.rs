use jflow::render::Renderer;
use jflow::theme::{get_icon_set, get_theme};

#[test]
fn painted_lines_carry_colour_codes_that_measuring_ignores() {
    colored::control::set_override(true);
    let r = Renderer::new(get_theme("default"), get_icon_set("unicode"));
    let mut lines = Vec::new();
    r.push_main(&mut lines, "main");
    r.push_connection(&mut lines);
    assert_eq!(lines[0], "      \u{1b}[34m◆\u{1b}[0m  \u{1b}[34mmain\u{1b}[0m");
    assert_eq!(lines[1], "      \u{1b}[90m│\u{1b}[0m");
    assert_eq!(console::measure_text_width(&lines[0]), 13);
    // the box is sized by what the terminal shows, not by the escape codes
    let inner = Renderer::inner_width_for(&lines, "t");
    assert_eq!(inner, 40);
    let wide = vec![format!("\u{1b}[34m{}\u{1b}[0m", "x".repeat(50))];
    assert_eq!(Renderer::inner_width_for(&wide, "t"), 52);
    assert_eq!(r.error_line("boom"), "\u{1b}[31m✗\u{1b}[0m \u{1b}[31mboom\u{1b}[0m");
    assert_eq!(r.info_line("note"), "\u{1b}[34mℹ\u{1b}[0m note");
}
