use big::cli::{after_text, effect_arguments, join_words, receive_step, word_duration, AfterText, PipeAction, Received};
use big::color::{get_term_color_support, Color, TermColorSupport};
use big::effects::{
    all_effects, candidate_effects, choose_effect, find_unknown_effect, list_effects, pick_effect, Effect, EffectType,
};
use big::palette::term_colors;
use big::pixels::{intensity_char, Pixels};
use rand::rngs::StdRng;
use rand::SeedableRng;

fn strings(v: &[&str]) -> Vec<String> {
    v.iter().map(|s| s.to_string()).collect()
}

#[test]
fn to_hex_writes_lower_case_channels() {
    assert_eq!(Color::new_rgb(255, 128, 0).to_hex(), "#ff8000");
    assert_eq!(Color::new_rgb(0, 0, 0).to_hex(), "#000000");
    assert_eq!(Color::new_rgb(1, 2, 171).to_hex(), "#0102ab");
}

#[test]
fn new_hex_reads_channels() {
    assert_eq!(Color::new_hex("#ff8000"), Color::new_rgb(255, 128, 0));
    assert_eq!(Color::new_hex("ff8000"), Color::new_rgb(255, 128, 0));
    assert_eq!(Color::new_hex("##FF8000"), Color::new_rgb(255, 128, 0));
    assert_eq!(Color::new_hex("#0a0B0c trailing"), Color::new_rgb(10, 11, 12));
    assert_eq!(Color::new_hex("+f+f+f"), Color::new_rgb(15, 15, 15));
}

#[test]
fn try_new_hex_refuses_what_is_not_hex() {
    assert_eq!(Color::try_new_hex("#ff80"), None);
    assert_eq!(Color::try_new_hex("#gg0000"), None);
    assert_eq!(Color::try_new_hex("#ff-000"), None);
    assert_eq!(Color::try_new_hex(""), None);
    assert_eq!(Color::try_new_hex("######"), None);
    assert_eq!(Color::try_new_hex("#ff00é0"), None);
    assert_eq!(Color::try_new_hex("#123456"), Some(Color::new_rgb(0x12, 0x34, 0x56)));
}

#[test]
fn hex_round_trip_on_examples() {
    for &(r, g, b) in &[(0u8, 0u8, 0u8), (255, 255, 255), (18, 52, 86), (171, 205, 239), (9, 160, 15)] {
        let c = Color::new_rgb(r, g, b);
        assert_eq!(Color::new_hex(&c.to_hex()), c);
    }
}

#[test]
fn default_color_is_black() {
    assert_eq!(Color::default(), Color::new_rgb(0, 0, 0));
}

#[test]
fn hue_sectors_arrange_channels() {
    assert_eq!(Color::from_hue_sector(0, 3, 2, 1), Color::new_rgb(3, 2, 1));
    assert_eq!(Color::from_hue_sector(1, 3, 2, 1), Color::new_rgb(2, 3, 1));
    assert_eq!(Color::from_hue_sector(2, 3, 2, 1), Color::new_rgb(1, 3, 2));
    assert_eq!(Color::from_hue_sector(3, 3, 2, 1), Color::new_rgb(1, 2, 3));
    assert_eq!(Color::from_hue_sector(4, 3, 2, 1), Color::new_rgb(2, 1, 3));
    assert_eq!(Color::from_hue_sector(5, 3, 2, 1), Color::new_rgb(3, 1, 2));
}

#[test]
fn true_color_escape() {
    let e = Color::new_rgb(1, 2, 3).to_escape(&TermColorSupport::TrueColor);
    assert_eq!(e.as_deref(), Some("\x1b[38;2;1;2;3m"));
    let e = Color::new_rgb(255, 0, 100).to_escape(&TermColorSupport::TrueColor);
    assert_eq!(e.as_deref(), Some("\x1b[38;2;255;0;100m"));
}

#[test]
fn no_color_escape() {
    assert_eq!(Color::new_rgb(1, 2, 3).to_escape(&TermColorSupport::NoColor), None);
}

#[test]
fn ansi256_escape_picks_nearest_palette_entry() {
    let e = |r, g, b| Color::new_rgb(r, g, b).to_escape(&TermColorSupport::Ansi256).unwrap();
    assert_eq!(e(0, 0, 0), "\x1b[38;5;0m");
    assert_eq!(e(255, 255, 255), "\x1b[38;5;15m");
    assert_eq!(e(255, 0, 0), "\x1b[38;5;9m");
    assert_eq!(e(128, 128, 128), "\x1b[38;5;8m");
    assert_eq!(e(10, 200, 30), "\x1b[38;5;40m");
    assert_eq!(e(200, 200, 200), "\x1b[38;5;251m");
    assert_eq!(e(100, 150, 200), "\x1b[38;5;68m");
}

#[test]
fn ansi16_escape_uses_standard_and_bright_codes() {
    let e = |r, g, b| Color::new_rgb(r, g, b).to_escape(&TermColorSupport::Ansi16).unwrap();
    assert_eq!(e(0, 0, 0), "\x1b[30m");
    assert_eq!(e(128, 0, 0), "\x1b[31m");
    assert_eq!(e(200, 200, 200), "\x1b[37m");
    assert_eq!(e(128, 128, 128), "\x1b[90m");
    assert_eq!(e(255, 0, 0), "\x1b[91m");
    assert_eq!(e(10, 200, 30), "\x1b[92m");
    assert_eq!(e(255, 255, 255), "\x1b[97m");
}

#[test]
fn escape_names_the_entry_at_distance_zero() {
    for &(r, g, b, k) in &[(0u8, 0u8, 0u8, 0usize), (0, 0, 95, 17), (8, 8, 8, 232), (238, 238, 238, 255)] {
        let s = Color::new_rgb(r, g, b).to_escape(&TermColorSupport::Ansi256).unwrap();
        assert_eq!(s, format!("\x1b[38;5;{}m", k));
    }
}

#[test]
fn palette_entries() {
    let p = term_colors();
    assert_eq!(p.len(), 256);
    assert_eq!(p[1], Color::new_rgb(128, 0, 0));
    assert_eq!(p[16], Color::new_rgb(0, 0, 0));
    assert_eq!(p[17], Color::new_rgb(0, 0, 95));
    assert_eq!(p[231], Color::new_rgb(255, 255, 255));
    assert_eq!(p[232], Color::new_rgb(8, 8, 8));
    assert_eq!(p[255], Color::new_rgb(238, 238, 238));
}

#[test]
fn term_color_support_from_environment() {
    let s = |v: &str| Some(v.to_string());
    assert_eq!(get_term_color_support(s("truecolor"), None), TermColorSupport::TrueColor);
    assert_eq!(get_term_color_support(s("24bit"), s("linux")), TermColorSupport::TrueColor);
    assert_eq!(get_term_color_support(s("256color"), None), TermColorSupport::Ansi256);
    assert_eq!(get_term_color_support(s("8bit"), None), TermColorSupport::Ansi256);
    assert_eq!(get_term_color_support(s("ansi"), None), TermColorSupport::Ansi16);
    assert_eq!(get_term_color_support(s("whatever"), s("xterm-256color")), TermColorSupport::Ansi16);
    assert_eq!(get_term_color_support(None, s("xterm-256color")), TermColorSupport::Ansi256);
    assert_eq!(get_term_color_support(None, s("linux")), TermColorSupport::Ansi256);
    assert_eq!(get_term_color_support(None, s("xterm")), TermColorSupport::Ansi16);
    assert_eq!(get_term_color_support(None, None), TermColorSupport::NoColor);
}

fn white() -> Color {
    Color::new_rgb(255, 255, 255)
}

#[test]
fn new_grid_is_blank_and_white() {
    let p = Pixels::new((3, 2));
    assert_eq!(p.size, (3, 2));
    assert_eq!(p.get_size(), (3, 2));
    for y in 0..2 {
        for x in 0..3 {
            assert_eq!(p.get_pixel((x, y)), Some((b' ', white())));
        }
    }
    assert_eq!(p.get_pixel((3, 0)), None);
    assert_eq!(p.get_pixel((0, 2)), None);
}

#[test]
fn read_after_write() {
    let mut p = Pixels::new((3, 2));
    let red = Color::new_rgb(255, 0, 0);
    p.set_char((2, 1), b'A');
    p.set_color((1, 0), red);
    assert_eq!(p.get_pixel((2, 1)), Some((b'A', white())));
    assert_eq!(p.get_pixel((1, 0)), Some((b' ', red)));
    assert_eq!(p.get_pixel((0, 0)), Some((b' ', white())));
}

#[test]
fn set_char_past_the_row_end_wraps_to_the_next_row() {
    let mut p = Pixels::new((3, 2));
    p.set_char((4, 0), b'Z');
    assert_eq!(p.get_pixel((1, 1)), Some((b'Z', white())));
}

#[test]
fn color_all_keeps_characters() {
    let mut p = Pixels::new((2, 2));
    p.set_char((0, 1), b'#');
    let blue = Color::new_rgb(0, 0, 255);
    p.color_all(blue);
    assert_eq!(p.get_pixel((0, 1)), Some((b'#', blue)));
    assert_eq!(p.get_pixel((1, 0)), Some((b' ', blue)));
}

#[test]
fn comp_draws_centred() {
    let mut canvas = Pixels::new((5, 3));
    let mut stamp = Pixels::new((3, 1));
    let green = Color::new_rgb(0, 255, 0);
    stamp.set_char((0, 0), b'a');
    stamp.set_char((2, 0), b'c');
    stamp.color_all(green);
    canvas.comp(&stamp, (2, 1));
    assert_eq!(canvas.get_pixel((1, 1)), Some((b'a', green)));
    assert_eq!(canvas.get_pixel((2, 1)), Some((b' ', white())));
    assert_eq!(canvas.get_pixel((3, 1)), Some((b'c', green)));
    assert_eq!(canvas.get_pixel((0, 1)), Some((b' ', white())));
}

#[test]
fn comp_clips_at_the_edges() {
    let mut canvas = Pixels::new((2, 2));
    let mut stamp = Pixels::new((2, 2));
    for y in 0..2 {
        for x in 0..2 {
            stamp.set_char((x, y), b'x');
        }
    }
    canvas.comp(&stamp, (0, 0));
    assert_eq!(canvas.get_pixel((0, 0)), Some((b'x', white())));
    assert_eq!(canvas.get_pixel((1, 0)), Some((b' ', white())));
    assert_eq!(canvas.get_pixel((0, 1)), Some((b' ', white())));
    assert_eq!(canvas.get_pixel((1, 1)), Some((b' ', white())));
}

#[test]
fn comp_of_a_blank_grid_changes_nothing() {
    let mut canvas = Pixels::new((3, 3));
    canvas.set_char((1, 1), b'q');
    let stamp = Pixels::new((3, 3));
    canvas.comp(&stamp, (1, 1));
    assert_eq!(canvas.get_pixel((1, 1)), Some((b'q', white())));
    assert_eq!(canvas.get_pixel((0, 0)), Some((b' ', white())));
}

#[test]
fn put_char_ignores_cells_outside() {
    let mut p = Pixels::new((2, 2));
    p.put_char(-1, 0, b'a');
    p.put_char(2, 0, b'a');
    p.put_char(0, 2, b'a');
    p.put_char(1, 1, b'b');
    assert_eq!(p.get_pixel((1, 1)), Some((b'b', white())));
    assert_eq!(p.get_pixel((0, 0)), Some((b' ', white())));
    assert_eq!(p.get_pixel((1, 0)), Some((b' ', white())));
    assert_eq!(p.get_pixel((0, 1)), Some((b' ', white())));
}

#[test]
fn render_line_writes_colour_changes() {
    let mut p = Pixels::new((3, 1));
    p.set_char((0, 0), b'a');
    p.set_char((1, 0), b'b');
    p.set_char((2, 0), b'c');
    p.set_color((2, 0), Color::new_rgb(1, 2, 3));
    assert_eq!(
        p.render_line(0, &TermColorSupport::TrueColor),
        "\x1b[38;2;255;255;255mab\x1b[38;2;1;2;3mc\x1b[0m\n"
    );
    assert_eq!(p.render_line(0, &TermColorSupport::NoColor), "abc\x1b[0m\n");
}

#[test]
fn intensity_char_saturates() {
    let m = b" .:";
    assert_eq!(intensity_char(m, 0), b' ');
    assert_eq!(intensity_char(m, 2), b':');
    assert_eq!(intensity_char(m, 9), b':');
}

#[test]
fn list_effects_text() {
    assert_eq!(
        list_effects(),
        "Background effects :\n - empty\n - wave\n - spiral\n\nText effects :\n - normal\n - rainbow\n - split\n - worm\n"
    );
}

#[test]
fn effect_names() {
    let names: Vec<&str> = all_effects().iter().map(|e| e.name()).collect();
    assert_eq!(names, vec!["empty", "wave", "spiral", "normal", "rainbow", "split", "worm"]);
    assert_eq!(Effect::from_name(&"worm".to_string()), Some(Effect::Worm));
    assert_eq!(Effect::from_name(&"Worm".to_string()), None);
    assert_eq!(Effect::Spiral.kind(), EffectType::Background);
    assert_eq!(Effect::Split.kind(), EffectType::Text);
}

#[test]
fn unknown_effect_is_found() {
    assert_eq!(find_unknown_effect(&strings(&["wave", "rainbow"])), None);
    assert_eq!(find_unknown_effect(&strings(&["wave", "fire", "nope"])), Some(1));
    assert_eq!(find_unknown_effect(&Vec::new()), None);
}

#[test]
fn candidates_follow_the_selection() {
    let sel = strings(&["wave", "rainbow", "worm", "rainbow"]);
    assert_eq!(candidate_effects(EffectType::Text, &sel), vec![Effect::Rainbow, Effect::Worm, Effect::Rainbow]);
    assert_eq!(candidate_effects(EffectType::Background, &sel), vec![Effect::Wave]);
    let only_text = strings(&["split"]);
    assert_eq!(
        candidate_effects(EffectType::Background, &only_text),
        vec![Effect::Empty, Effect::Wave, Effect::Spiral]
    );
    assert_eq!(
        candidate_effects(EffectType::Text, &Vec::new()),
        vec![Effect::Normal, Effect::Rainbow, Effect::Split, Effect::Worm]
    );
}

#[test]
fn pick_effect_wraps_the_draw() {
    let c = vec![Effect::Normal, Effect::Worm, Effect::Split];
    assert_eq!(pick_effect(&c, 0), Effect::Normal);
    assert_eq!(pick_effect(&c, 4), Effect::Worm);
    assert_eq!(pick_effect(&c, usize::MAX), Effect::Normal);
}

#[test]
fn chosen_effect_draws_on_the_layer() {
    let mut rng = StdRng::seed_from_u64(7);
    for _ in 0..50 {
        let e = choose_effect(EffectType::Background, &Vec::new(), &mut rng);
        assert_eq!(e.kind(), EffectType::Background);
        let e = choose_effect(EffectType::Text, &strings(&["wave", "worm"]), &mut rng);
        assert_eq!(e, Effect::Worm);
    }
}

#[test]
fn effect_arguments_collects_names() {
    let args = strings(&["big", "hello", "-e", "wave", "rainbow", "-l", "world"]);
    let mut free = strings(&["hello", "wave", "rainbow", "world"]);
    let fx = effect_arguments(&args, &vec![1], &mut free);
    assert_eq!(fx, Some(strings(&["wave", "rainbow"])));
    assert_eq!(free, strings(&["hello", "world"]));
}

#[test]
fn effect_arguments_stops_when_arguments_run_out() {
    let args = strings(&["big", "-e", "worm"]);
    let mut free = strings(&["worm"]);
    let fx = effect_arguments(&args, &vec![0, 5], &mut free);
    assert_eq!(fx, Some(strings(&["worm"])));
    assert!(free.is_empty());
}

#[test]
fn effect_arguments_refuses_an_empty_argument() {
    let args = strings(&["big", "-e", ""]);
    let mut free = strings(&[""]);
    assert_eq!(effect_arguments(&args, &vec![0], &mut free), None);
}

#[test]
fn join_words_puts_a_space_before_each() {
    assert_eq!(join_words(&strings(&["a", "bc"])), " a bc");
    assert_eq!(join_words(&Vec::new()), "");
}

#[test]
fn word_duration_formula() {
    assert_eq!(word_duration("hello"), 500);
    assert_eq!(word_duration("hi!"), 200 + 180 + 350);
    assert_eq!(word_duration("é"), 320);
}

#[test]
fn receive_step_decisions() {
    let mut text = String::new();
    assert_eq!(receive_step(&mut text, Received::Nothing), PipeAction::Sleep);
    assert_eq!(receive_step(&mut text, Received::Line("ab".to_string())), PipeAction::Poll);
    assert_eq!(text, "ab");
    assert_eq!(receive_step(&mut text, Received::Nothing), PipeAction::Show);
    assert_eq!(receive_step(&mut text, Received::Finished), PipeAction::Show);
    let mut empty = String::new();
    assert_eq!(receive_step(&mut empty, Received::Finished), PipeAction::Quit);
}

#[test]
fn after_text_decisions() {
    assert_eq!(after_text(false, false), AfterText::Finish);
    assert_eq!(after_text(true, false), AfterText::Repeat);
    assert_eq!(after_text(false, true), AfterText::Refill);
    assert_eq!(after_text(true, true), AfterText::Refill);
}
