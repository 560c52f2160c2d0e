use snake::i18n::{language_for, translated_or_key, Language};
use snake::shell::{cache_update_wants_reload, App};
use snake::snake::{
    apply_tick, board_cell, direction_for_key, food_candidate_accepted, fresh_snake,
    high_score_from_storage, initial_direction, key_action, may_submit_score, next_direction_after,
    score_status, after_tick, first_free_draw, initial_game, pick_free_position_with, restarted_game, tick_timer_runs,
    tick_interval_ms, CellKind, KeyAction, PureTickInputs, PureTickOutputs, GOLD_FOOD_POINTS,
    GRID_SIZE, MAX_GENERATE_ATTEMPTS, REGULAR_FOOD_POINTS,
};
use snake::storage::{strip_quotes, theme_from_cookies, StorageService, StorageWrite};

fn inputs(snake: Vec<(i32, i32)>, next: (i32, i32), food: (i32, i32)) -> PureTickInputs {
    PureTickInputs {
        snake,
        direction: next,
        next_direction: next,
        food,
        score: 0,
        high_score: 0,
        game_over: false,
        is_gold: false,
        grid_size: GRID_SIZE,
    }
}

#[test]
fn tick_slides_forward() {
    let out = apply_tick(inputs(fresh_snake(), (0, -1), (5, 5)), false, (1, 1));
    assert_eq!(
        out,
        PureTickOutputs {
            snake: vec![(10, 9), (10, 10), (10, 11)],
            direction: (0, -1),
            food: (5, 5),
            score: 0,
            high_score: 0,
            game_over: false,
            is_gold: false,
        }
    );
}

#[test]
fn tick_eats_and_grows() {
    let mut i = inputs(fresh_snake(), (0, -1), (10, 9));
    i.score = 20;
    i.high_score = 25;
    let out = apply_tick(i, true, (3, 4));
    assert_eq!(out.snake, vec![(10, 9), (10, 10), (10, 11), (10, 12)]);
    assert_eq!(out.score, 20 + REGULAR_FOOD_POINTS);
    assert_eq!(out.high_score, 30);
    assert_eq!(out.food, (3, 4));
    assert!(out.is_gold);

    let mut g = inputs(vec![(0, 0)], (1, 0), (1, 0));
    g.is_gold = true;
    let out = apply_tick(g, false, (7, 7));
    assert_eq!(out.score, GOLD_FOOD_POINTS);
    assert!(!out.is_gold);
}

#[test]
fn tick_wall_collision_freezes_state() {
    let out = apply_tick(inputs(vec![(0, 5), (1, 5)], (-1, 0), (9, 9)), true, (2, 2));
    assert!(out.game_over);
    assert_eq!(out.snake, vec![(0, 5), (1, 5)]);
    assert_eq!(out.direction, (-1, 0));
    assert_eq!(out.food, (9, 9));
}

#[test]
fn tick_self_collision_and_tail_chase() {
    // Head runs into its own body.
    let body = vec![(5, 5), (5, 6), (6, 6), (6, 5), (6, 4)];
    let out = apply_tick(inputs(body, (1, 0), (0, 0)), false, (1, 1));
    assert!(out.game_over);
    // Moving into the cell the tail leaves is fine.
    let ring = vec![(5, 5), (5, 6), (6, 6), (6, 5)];
    let out = apply_tick(inputs(ring, (1, 0), (0, 0)), false, (1, 1));
    assert!(!out.game_over);
    assert_eq!(out.snake, vec![(6, 5), (5, 5), (5, 6), (6, 6)]);
    // ... unless that cell holds the food, when the tail stays.
    let ring = vec![(5, 5), (5, 6), (6, 6), (6, 5)];
    let out = apply_tick(inputs(ring, (1, 0), (6, 5)), false, (1, 1));
    assert!(out.game_over);
}

#[test]
fn tick_interval_speeds_up_and_floors() {
    assert_eq!(tick_interval_ms(0), 170);
    assert_eq!(tick_interval_ms(19), 170);
    assert_eq!(tick_interval_ms(20), 155);
    assert_eq!(tick_interval_ms(120), 80);
    assert_eq!(tick_interval_ms(140), 75);
    assert_eq!(tick_interval_ms(10_000), 75);
    assert_eq!(tick_interval_ms(u32::MAX), 75);
}

#[test]
fn direction_changes_reject_reversal() {
    // Moving up: left/right allowed, down (reversal) and up rejected.
    assert_eq!(next_direction_after((0, -1), (0, -1), -1, 0), (-1, 0));
    assert_eq!(next_direction_after((0, -1), (0, -1), 0, 1), (0, -1));
    assert_eq!(next_direction_after((0, -1), (1, 0), 0, -1), (1, 0));
    assert_eq!(initial_direction(), (0, -1));
}

#[test]
fn keys_map_to_actions() {
    assert_eq!(direction_for_key("ArrowUp"), Some((0, -1)));
    assert_eq!(direction_for_key("S"), Some((0, 1)));
    assert_eq!(direction_for_key("a"), Some((-1, 0)));
    assert_eq!(direction_for_key("ArrowRight"), Some((1, 0)));
    assert_eq!(direction_for_key("x"), None);
    assert!(matches!(key_action("Escape", true, false, false), KeyAction::SetPaused(true)));
    assert!(matches!(key_action("p", true, false, true), KeyAction::SetPaused(false)));
    assert!(matches!(key_action("P", false, false, false), KeyAction::Ignore));
    assert!(matches!(key_action("P", true, true, false), KeyAction::Ignore));
    assert!(matches!(key_action("w", true, false, true), KeyAction::Ignore));
    assert!(matches!(key_action("d", true, false, false), KeyAction::Turn((1, 0))));
    assert!(matches!(key_action("Enter", true, false, false), KeyAction::Ignore));
}

#[test]
fn board_cells_are_classified() {
    let snake = fresh_snake();
    assert!(matches!(board_cell(&snake, (5, 5), false, 10, 10), CellKind::SnakeHead));
    assert!(matches!(board_cell(&snake, (5, 5), false, 10, 12), CellKind::SnakeBody));
    assert!(matches!(board_cell(&snake, (5, 5), true, 5, 5), CellKind::GoldFood));
    assert_eq!(board_cell(&snake, (5, 5), false, 5, 5).css_class(), "grid-cell food");
    assert_eq!(board_cell(&snake, (5, 5), false, 0, 0).css_class(), "grid-cell");
    assert_eq!(board_cell(&snake, (5, 5), false, 10, 10).css_class(), "grid-cell snake-head");
}

#[test]
fn food_placement_accepts_free_cells_or_gives_up() {
    let snake = fresh_snake();
    assert!(food_candidate_accepted(&snake, (0, 0), 0));
    assert!(!food_candidate_accepted(&snake, (10, 11), 0));
    assert!(!food_candidate_accepted(&snake, (10, 11), MAX_GENERATE_ATTEMPTS - 1));
    assert!(food_candidate_accepted(&snake, (10, 11), MAX_GENERATE_ATTEMPTS));
}

#[test]
fn high_score_reads_back() {
    assert_eq!(high_score_from_storage(None), 0);
    assert_eq!(high_score_from_storage(Some("1234")), 1234);
    assert_eq!(high_score_from_storage(Some("4294967295")), u32::MAX);
    assert_eq!(high_score_from_storage(Some("4294967296")), 0);
    assert_eq!(high_score_from_storage(Some("abc")), 0);
}

#[test]
fn languages_are_chosen_by_prefix() {
    assert_eq!(language_for("de-AT"), Language::De);
    assert_eq!(language_for("zh"), Language::Zh);
    assert_eq!(language_for("pt-BR").code(), "pt");
    assert_eq!(language_for("it"), Language::En);
    assert_eq!(language_for(""), Language::En);
}

#[test]
fn theme_cookie_is_parsed() {
    assert_eq!(theme_from_cookies("a=1; snake_theme=tourian; b=2"), Some("tourian".to_string()));
    assert_eq!(theme_from_cookies("snake_theme = \"brinstar\" "), Some("\"brinstar\"".to_string()));
    assert_eq!(theme_from_cookies("snake_theme=a=b"), Some("a".to_string()));
    assert_eq!(theme_from_cookies("other=1"), None);
    assert_eq!(theme_from_cookies("snake_theme"), None);
    assert_eq!(theme_from_cookies(""), None);
    assert_eq!(strip_quotes("\"x\""), "x");
    assert_eq!(strip_quotes("\""), "\"");
}

#[test]
fn storage_reads_prefer_the_theme_cookie() {
    let (v, writes) = StorageService::get_item("theme", "norfair", Some("snake_theme=\"maridia\""), Some("crateria"));
    assert_eq!(v, "maridia");
    assert_eq!(writes, vec![StorageWrite::Local { key: "theme".to_string(), value: "maridia".to_string() }]);

    let (v, writes) = StorageService::get_item("theme", "norfair", Some("x=1"), None);
    assert_eq!(v, "norfair");
    assert!(writes.is_empty());

    let (v, writes) = StorageService::get_item("locale", "en", None, Some("\"de\""));
    assert_eq!(v, "de");
    assert_eq!(writes, vec![StorageWrite::Local { key: "locale".to_string(), value: "de".to_string() }]);

    let (v, writes) = StorageService::get_item("locale", "en", None, Some("fr"));
    assert_eq!(v, "fr");
    assert!(writes.is_empty());
}

#[test]
fn storage_writes_mirror_the_theme_to_a_cookie() {
    let writes = StorageService::set_item("theme", "tourian");
    assert_eq!(
        writes,
        vec![
            StorageWrite::Local { key: "theme".to_string(), value: "tourian".to_string() },
            StorageWrite::Cookie("snake_theme=tourian; Path=/; Max-Age=31536000; SameSite=Lax".to_string()),
        ]
    );
    // The written cookie reads back as the theme.
    if let StorageWrite::Cookie(text) = &writes[1] {
        assert_eq!(theme_from_cookies(text), Some("tourian".to_string()));
    }
    assert_eq!(StorageService::set_item("locale", "ja").len(), 1);
}

#[test]
fn app_starts_locked_with_defaults() {
    let app = App::create_app("tourian".to_string(), "de".to_string());
    assert!(!app.authenticated);
    assert!(app.is_pin_required);
    assert_eq!(app.theme, "tourian");
    assert_eq!(app.locale_state, "de");
    assert_eq!(app.app_version, "");
    assert_eq!(app.site_title, "");
    assert!(app.enable_translation && app.enable_themes && !app.enable_print);
    assert!(app.show_version && app.show_github);
    assert_eq!(app.content_class(), "container");
    assert!(app.print_disabled());
    assert_eq!(app.footer_status(), ("Ready".to_string(), "success".to_string()));
}

#[test]
fn app_frame_after_login() {
    let mut app = App::create_app("brinstar".to_string(), "en".to_string());
    app.authenticated = true;
    app.active_notification = Some(("Saved".to_string(), "info".to_string()));
    assert_eq!(app.content_class(), "app-body");
    assert!(!app.print_disabled());
    assert_eq!(app.footer_status(), ("Saved".to_string(), "info".to_string()));
}

#[test]
fn missing_translation_falls_back_to_key() {
    assert_eq!(translated_or_key(None, "score"), "score");
    assert_eq!(translated_or_key(Some("Punkte"), "score"), "Punkte");
}

#[test]
fn score_banner_follows_game_state() {
    assert_eq!(score_status(0, false, "Game over"), ("Score: 0".to_string(), "success".to_string()));
    assert_eq!(score_status(140, false, "Game over"), ("Score: 140".to_string(), "success".to_string()));
    assert_eq!(score_status(140, true, "Spiel vorbei"), ("Spiel vorbei".to_string(), "error".to_string()));
}

#[test]
fn score_submission_needs_a_name_and_no_pending_request() {
    assert!(may_submit_score("ada", false));
    assert!(!may_submit_score("ada", true));
    assert!(!may_submit_score("   ", false));
    assert!(!may_submit_score("", false));
    assert!(may_submit_score(" x ", false));
}

#[test]
fn service_worker_reload_only_for_new_versions() {
    assert!(cache_update_wants_reload("CACHE_UPDATED", true, "1.0.33", "1.0.32"));
    assert!(!cache_update_wants_reload("CACHE_UPDATED", true, "1.0.32", "1.0.32"));
    assert!(!cache_update_wants_reload("CACHE_UPDATED", false, "1.0.33", "1.0.32"));
    assert!(!cache_update_wants_reload("PING", true, "1.0.33", "1.0.32"));
    assert!(!cache_update_wants_reload("", false, "", ""));
}

#[test]
fn pick_free_position_keeps_first_free_cell() {
    let snake: Vec<(i32, i32)> = Vec::new();
    let (pos, redraws, _) = pick_free_position_with(&snake, || (10, 10));
    assert_eq!((pos, redraws), ((10, 10), 0));
}

#[test]
fn pick_free_position_retries_when_snake_hits() {
    let snake = vec![(10, 10)];
    let calls = std::cell::Cell::new(0u32);
    let (pos, redraws, _) = pick_free_position_with(&snake, || {
        calls.set(calls.get() + 1);
        if calls.get() <= 1 { (10, 10) } else { (0, 0) }
    });
    assert_eq!((pos, redraws), ((0, 0), 1));
    assert_eq!(calls.get(), 2);
}

#[test]
fn pick_free_position_returns_last_sample_when_grid_full() {
    let mut snake = Vec::new();
    for y in 0..GRID_SIZE {
        for x in 0..GRID_SIZE {
            snake.push((x, y));
        }
    }
    let calls = std::cell::Cell::new(0u32);
    let (pos, redraws, _) = pick_free_position_with(&snake, || {
        calls.set(calls.get() + 1);
        (10, 10)
    });
    assert!(snake.contains(&pos));
    assert_eq!(redraws, MAX_GENERATE_ATTEMPTS);
    assert_eq!(calls.get(), MAX_GENERATE_ATTEMPTS + 1);
}

#[test]
fn games_start_and_restart_in_known_states() {
    let g = initial_game(42);
    assert_eq!(g.snake, vec![(10, 10), (10, 11), (10, 12)]);
    assert_eq!(g.food, (5, 5));
    assert_eq!((g.score, g.high_score), (0, 42));
    assert!(!g.started && !g.paused && !g.game_over && !g.is_gold);
    let r = restarted_game(42, (3, 4));
    assert!(r.started && !r.paused && !r.game_over && !r.is_gold);
    assert_eq!((r.food, r.direction, r.next_direction), ((3, 4), (0, -1), (0, -1)));
    assert!(tick_timer_runs(true, false, false));
    assert!(!tick_timer_runs(true, true, false));
    assert!(!tick_timer_runs(true, false, true));
    assert!(!tick_timer_runs(false, false, false));
}

#[test]
fn tick_results_are_written_back() {
    let g = restarted_game(5, (10, 9));
    let out = apply_tick(g.tick_inputs(), true, (1, 1));
    let (g2, store) = after_tick(g, out);
    assert_eq!(g2.snake, vec![(10, 9), (10, 10), (10, 11), (10, 12)]);
    assert_eq!((g2.score, g2.high_score, g2.food, g2.is_gold), (10, 10, (1, 1), true));
    assert!(store);
    let mut g3 = restarted_game(50, (0, 0));
    g3.snake = vec![(10, 0)];
    let out = apply_tick(g3.tick_inputs(), false, (2, 2));
    let (g4, store) = after_tick(g3, out);
    assert!(g4.game_over && !store);
    assert_eq!(g4.snake, vec![(10, 0)]);
}

#[test]
fn first_free_draw_takes_the_first_cell_off_the_snake() {
    let snake = vec![(10, 10), (10, 11)];
    assert_eq!(first_free_draw(&snake, &vec![(10, 10), (10, 11), (3, 3), (4, 4)]), Some(((3, 3), 2)));
    assert_eq!(first_free_draw(&snake, &vec![(10, 10)]), None);
    assert_eq!(first_free_draw(&snake, &Vec::new()), None);
    let all_hits = vec![(10, 10); 102];
    assert_eq!(first_free_draw(&snake, &all_hits), Some(((10, 10), 100)));
}
