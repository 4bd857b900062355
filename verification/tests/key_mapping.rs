use cineplanet_cli::app::{Action, Screen};
use cineplanet_cli::keys::{Key, action_for_screen};

#[test]
fn lowercase_shortcut_letters_remain_available_for_movie_search() {
    assert_eq!(
        action_for_screen(Key::Char('p'), false, Screen::Movies, false),
        Some(Action::Character('p'))
    );
    assert_eq!(
        action_for_screen(Key::Char('q'), false, Screen::Movies, false),
        Some(Action::Character('q'))
    );
    assert_eq!(
        action_for_screen(Key::Char('f'), false, Screen::Movies, false),
        Some(Action::Character('f'))
    );
    assert_eq!(
        action_for_screen(Key::Char('Q'), false, Screen::Movies, false),
        Some(Action::Quit)
    );
    assert_eq!(
        action_for_screen(Key::Char('F'), false, Screen::Movies, false),
        Some(Action::Character('F'))
    );
}

#[test]
fn space_mapping_covers_each_query_capable_screen() {
    let space = Key::Char(' ');

    let cases = [
        (Screen::CitySetup, false, Action::Character(' ')),
        (Screen::CitySetup, true, Action::Character(' ')),
        (Screen::VenueSetup, false, Action::Toggle),
        (Screen::VenueSetup, true, Action::Character(' ')),
        (Screen::Movies, false, Action::Character(' ')),
        (Screen::Movies, true, Action::Character(' ')),
        (Screen::Filters, false, Action::Toggle),
        (Screen::Filters, true, Action::Character(' ')),
        (Screen::Results, false, Action::Character(' ')),
        (Screen::Results, true, Action::Character(' ')),
    ];

    for (screen, query_nonempty, expected) in cases {
        assert_eq!(
            action_for_screen(space, false, screen, query_nonempty),
            Some(expected),
            "screen={screen:?}, query_nonempty={query_nonempty}"
        );
    }
}

#[test]
fn control_c_quits_but_a_plain_c_is_typed() {
    assert_eq!(action_for_screen(Key::Char('c'), true, Screen::Movies, false), Some(Action::Quit));
    assert_eq!(
        action_for_screen(Key::Char('c'), false, Screen::Movies, false),
        Some(Action::Character('c'))
    );
    assert_eq!(action_for_screen(Key::Esc, false, Screen::Results, false), Some(Action::Back));
    assert_eq!(action_for_screen(Key::Other, false, Screen::Results, false), None);
}
