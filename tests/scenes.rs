use select_save::manager::Manager;
use select_save::scene::message::Message;
use select_save::scene::selectgame::{preview_image_for_game, Operation, SelectGame};
use select_save::scene::selectsave::{
    duration_since_save, metadata_for_save, parse_timestamp, saves_for_game, CommitRequest,
    SelectSave, Timestamp,
};
use select_save::scene::selectstring::{self, SelectString};
use select_save::scene::{Completion, Request, Scene};
use select_save::ui::{Action, Button, Color};

fn strings(v: &[&str]) -> Vec<String> {
    v.iter().map(|s| s.to_string()).collect()
}

fn game_picker(games: &[&str]) -> SelectGame {
    SelectGame::new("/roms".to_string(), "/saves".to_string(), strings(games), 100)
}

#[test]
fn message_overlay_keeps_base_background_and_draws_last() {
    let mut m = Manager::new(Scene::SelectGame(game_picker(&["/roms/a/English/g"])));
    let base = m.background_color();
    assert_eq!(m.draw_order(), vec![0]);
    m.push(Scene::Message(Message::new(strings(&["hello"]), false)));
    assert_eq!(m.background_color(), base);
    assert_eq!(m.background_color(), Color { r: 0, g: 0, b: 0, a: 255 });
    assert_eq!(m.draw_order(), vec![0, 1]);
}

#[test]
fn start_under_message_completes_with_game() {
    let mut m = Manager::new(Scene::SelectGame(game_picker(&["/roms/a/English/g1", "/roms/a/English/g2"])));
    assert!(matches!(m.pressed(Button::Down), Action::Continue));
    m.push(Scene::Message(Message::new(strings(&["Copied x"]), false)));
    match m.pressed(Button::Start) {
        Action::Complete(Completion::Game(Operation::ExecGame(g))) => {
            assert_eq!(g, "/roms/a/English/g2")
        }
        _ => panic!("expected the game to be launched"),
    }
}

#[test]
fn message_is_dismissed_with_a_or_b() {
    let mut m = Manager::new(Scene::SelectGame(game_picker(&["/roms/a/English/g1"])));
    m.push(Scene::Message(Message::new(strings(&["x"]), true)));
    assert!(matches!(m.pressed(Button::X), Action::Continue));
    assert_eq!(m.scenes().len(), 2);
    assert!(matches!(m.pressed(Button::A), Action::Continue));
    assert_eq!(m.scenes().len(), 1);
    assert!(matches!(m.pressed(Button::B), Action::Quit));
}

#[test]
fn global_buttons() {
    let mut m = Manager::new(Scene::SelectGame(game_picker(&["/roms/a/English/g1"])));
    assert!(matches!(m.pressed(Button::Select), Action::Quit));
    assert!(matches!(m.pressed(Button::R2), Action::Screenshot));
    assert_eq!(m.scenes().len(), 1);
}

#[test]
fn empty_game_list_ignores_start_and_a() {
    let mut m = Manager::new(Scene::SelectGame(game_picker(&[])));
    assert!(matches!(m.pressed(Button::Start), Action::Continue));
    assert!(matches!(m.pressed(Button::A), Action::Continue));
}

#[test]
fn a_on_game_requests_its_saves() {
    let mut m = Manager::new(Scene::SelectGame(game_picker(&["/roms/a/English/g1"])));
    match m.pressed(Button::A) {
        Action::Perform(Request::OpenGame { game, root, destination }) => {
            assert_eq!(game, "/roms/a/English/g1");
            assert_eq!(root, "/roms");
            assert_eq!(destination, "/saves");
        }
        _ => panic!("expected a request"),
    }
}

#[test]
fn select_string_completes_with_item() {
    let mut m = Manager::new(Scene::SelectString(SelectString::new(strings(&["x", "y", "z"]), "Pick".to_string())));
    m.pressed(Button::Up);
    match m.pressed(Button::A) {
        Action::Complete(Completion::Item(selectstring::Operation::SelectItem(s))) => assert_eq!(s, "z"),
        _ => panic!("expected a selection"),
    }
}

#[test]
fn game_labels() {
    let g = game_picker(&[]);
    assert_eq!(g.label_for("/roms/snes/Japanese/Some Game"), "(J) Some Game");
    assert_eq!(g.label_for("/roms/gba/German/X"), "(O) X");
    assert_eq!(g.label_for("/roms/gba/English/Y/"), "(E) Y");
}

#[test]
fn from_joystick_index() {
    assert_eq!(Button::from_joystick_index(0), Some(Button::A));
    assert_eq!(Button::from_joystick_index(6), Some(Button::Start));
    assert_eq!(Button::from_joystick_index(11), Some(Button::R2));
    assert_eq!(Button::from_joystick_index(12), None);
}

#[test]
fn commit_removes_stale_saves_and_installs_state_as_auto() {
    let req = CommitRequest {
        game: "/roms/snes/English/game".to_string(),
        root: "/roms".to_string(),
        destination: "/saves".to_string(),
        save: "/roms/snes/English/game/game.state".to_string(),
    };
    assert_eq!(req.directory(), Some("/saves/snes/English".to_string()));
    let listing = strings(&[
        "/saves/snes/English/game.srm",
        "/saves/snes/English/game.state3",
        "/saves/snes/English/game.png",
        "/saves/snes/English/other.srm",
    ]);
    let plan = req.plan(&listing).expect("game is under the root");
    assert_eq!(
        plan.remove,
        strings(&["/saves/snes/English/game.srm", "/saves/snes/English/game.state3"])
    );
    assert_eq!(
        plan.log(),
        strings(&["Copied game.state", "Removed \"game.srm\"", "Removed \"game.state3\""])
    );
    assert_eq!(plan.copy_to, Some("/saves/snes/English/game.state.auto".to_string()));
}

#[test]
fn commit_keeps_other_extensions_and_refuses_outside_games() {
    let req = CommitRequest {
        game: "/roms/a/b/game".to_string(),
        root: "/roms".to_string(),
        destination: "/saves/".to_string(),
        save: "/roms/a/b/game/x.sav".to_string(),
    };
    let plan = req.plan(&strings(&["/saves/a/b/game.state.auto", "/saves/a/b/game.cfg"])).unwrap();
    assert_eq!(plan.remove, strings(&["/saves/a/b/game.state.auto"]));
    assert_eq!(plan.copy_to, Some("/saves/a/b/game.sav".to_string()));
    let none = CommitRequest { game: "/elsewhere/g".to_string(), ..req };
    assert!(none.plan(&Vec::new()).is_none());
    let noext = CommitRequest {
        game: "/roms/a/b/game".to_string(),
        root: "/roms".to_string(),
        destination: "/saves".to_string(),
        save: "/roms/a/b/game/plain".to_string(),
    };
    assert_eq!(noext.plan(&Vec::new()).unwrap().copy_to, None);
}

#[test]
fn finishing_a_commit_shows_a_message() {
    let mut m = Manager::new(Scene::SelectGame(game_picker(&["/roms/a/English/g1"])));
    m.finish_commit(Err("disk full".to_string()));
    match &m.scenes()[1] {
        Scene::Message(msg) => {
            assert!(msg.is_error);
            assert_eq!(msg.messages, strings(&["Error updating saves", "disk full"]));
        }
        _ => panic!("expected a message"),
    }
}

#[test]
fn saves_pair_with_last_matching_image() {
    let files = strings(&["g/a.srm", "g/a.png", "g/b.state", "g/b.jpg", "g/b.png", "g/noext", "g/c.state1"]);
    assert_eq!(
        saves_for_game(&files),
        vec![
            ("g/a.srm".to_string(), Some("g/a.png".to_string())),
            ("g/b.state".to_string(), Some("g/b.png".to_string())),
            ("g/noext".to_string(), None),
            ("g/c.state1".to_string(), None),
        ]
    );
    assert_eq!(saves_for_game(&strings(&["g/save"])), vec![("g/save".to_string(), None)]);
    assert_eq!(preview_image_for_game(&files), Some("g/b.png".to_string()));
    assert_eq!(preview_image_for_game(&strings(&["g/a.srm"])), None);
}

#[test]
fn save_scene_commits_and_launches() {
    let files = strings(&["/roms/a/b/game/one.srm"]);
    let s = SelectSave::new(
        "/roms/a/b/game".to_string(),
        "/roms".to_string(),
        "/saves".to_string(),
        &files,
        None,
        5,
    );
    assert_eq!(s.label_for("/roms/a/b/game/one.srm"), "one.srm");
    let mut m = Manager::new(Scene::SelectSave(s));
    match m.pressed(Button::A) {
        Action::Perform(Request::CommitSave(req)) => assert_eq!(req.save, "/roms/a/b/game/one.srm"),
        _ => panic!("expected a commit request"),
    }
    match m.pressed(Button::Start) {
        Action::Complete(Completion::Game(Operation::ExecGame(g))) => assert_eq!(g, "/roms/a/b/game"),
        _ => panic!("expected the game"),
    }
}

#[test]
fn timestamps_in_file_names() {
    assert_eq!(
        parse_timestamp("20240131-235959"),
        Some(Timestamp { year: 2024, month: 1, day: 31, hour: 23, minute: 59, second: 59 })
    );
    assert_eq!(parse_timestamp("2024013-235959"), None);
    assert_eq!(parse_timestamp("20240131_235959"), None);
    assert_eq!(parse_timestamp("2024a131-235959"), None);
}

#[test]
fn ages_in_words() {
    assert_eq!(duration_since_save(59, true), "<1 minute ago");
    assert_eq!(duration_since_save(60, false), "Maybe 1 minute ago");
    assert_eq!(duration_since_save(3600 * 5 + 7, true), "5 hours ago");
    assert_eq!(duration_since_save(86400, true), "1 day ago");
    assert_eq!(duration_since_save(604800 * 3, true), "3 weeks ago");
    assert_eq!(duration_since_save(604800 * 52 * 2, true), "2 years ago");
    assert_eq!(duration_since_save(-5, true), "<1 minute ago");
}

#[test]
fn metadata_lines() {
    assert_eq!(
        metadata_for_save(Some("1 day ago".to_string()), strings(&["Lv 3"])),
        strings(&["1 day ago", "Lv 3"])
    );
    assert_eq!(metadata_for_save(None, Vec::new()), Vec::<String>::new());
}

#[test]
fn commit_removes_only_the_known_save_extensions() {
    let req = CommitRequest {
        game: "/roms/a/b/game".to_string(),
        root: "/roms".to_string(),
        destination: "/saves".to_string(),
        save: "/roms/a/b/game/game.srm".to_string(),
    };
    let listing = strings(&[
        "/saves/a/b/game.bak.srm",
        "/saves/a/b/game.state",
        "/saves/a/b/game.state12",
        "/saves/a/b/game.statex",
        "/saves/a/b/game.msav",
        "/saves/a/b/game.ldci",
        "/saves/a/b/game.state.auto",
    ]);
    let plan = req.plan(&listing).unwrap();
    assert_eq!(
        plan.remove,
        strings(&[
            "/saves/a/b/game.state",
            "/saves/a/b/game.state12",
            "/saves/a/b/game.ldci",
            "/saves/a/b/game.state.auto",
        ])
    );
    assert_eq!(plan.copy_to, Some("/saves/a/b/game.srm".to_string()));
}
