use cineplanet_cli::app::{Action, App, Effect, Screen};
use cineplanet_cli::clock::date_label;
use cineplanet_cli::demo;
use cineplanet_cli::domain::{Catalog, Preferences, Venue};

fn catalog_with_two_cities() -> Catalog {
    let mut catalog = demo::catalog();
    catalog.venues.push(Venue {
        id: "arequipa-center".into(),
        name: "CP Arequipa Center".into(),
        city: "Arequipa".into(),
    });
    catalog
}

fn preferences_with_city(city: &str) -> Preferences {
    Preferences {
        city: Some(city.into()),
        ..Preferences::default()
    }
}

#[test]
fn first_run_lists_cities_with_lima_first_then_alphabetical() {
    let mut catalog = demo::catalog();
    catalog.venues.clear();
    catalog.venues.push(Venue {
        id: "tr1".into(),
        name: "CP Trujillo".into(),
        city: "Trujillo".into(),
    });
    catalog.venues.push(Venue {
        id: "l1".into(),
        name: "CP Lima".into(),
        city: "Lima".into(),
    });
    catalog.venues.push(Venue {
        id: "aq1".into(),
        name: "CP Arequipa".into(),
        city: "Arequipa".into(),
    });

    let app = App::new(catalog, Preferences::default());

    assert_eq!(app.available_cities(), vec!["Lima", "Arequipa", "Trujillo"]);
}

#[test]
fn first_run_requires_selecting_a_city_before_venues() {
    let mut app = App::new(demo::catalog(), Preferences::default());

    assert_eq!(app.screen(), Screen::Welcome);
    app.apply(Action::Confirm);
    assert_eq!(app.screen(), Screen::CitySetup);
    app.apply(Action::Confirm);
    assert_eq!(app.screen(), Screen::CitySetup);
    assert_eq!(app.preferences().city.as_deref(), Some("Lima"));
    app.apply(Action::Down);
    app.apply(Action::Confirm);
    assert_eq!(app.screen(), Screen::VenueSetup);
}

#[test]
fn city_setup_arrows_wrap_across_distinct_cities() {
    let mut catalog = demo::catalog();
    catalog.venues.clear();
    catalog.venues.push(Venue {
        id: "l1".into(),
        name: "CP Lima".into(),
        city: "Lima".into(),
    });
    catalog.venues.push(Venue {
        id: "aq1".into(),
        name: "CP Arequipa".into(),
        city: "Arequipa".into(),
    });
    catalog.venues.push(Venue {
        id: "tr1".into(),
        name: "CP Trujillo".into(),
        city: "Trujillo".into(),
    });

    let mut app = App::new(catalog, Preferences::default());
    app.apply(Action::Confirm);
    assert_eq!(app.screen(), Screen::CitySetup);
    assert_eq!(app.city_index(), 0);

    app.apply(Action::Up);
    assert_eq!(app.city_index(), 3);

    app.apply(Action::Down);
    assert_eq!(app.city_index(), 0);

    app.apply(Action::Down);
    assert_eq!(app.city_index(), 1);

    app.apply(Action::Confirm);
    assert_eq!(app.preferences().city.as_deref(), Some("Arequipa"));
    assert_eq!(app.screen(), Screen::CitySetup);
}

#[test]
fn first_run_allows_selecting_multiple_favorite_venues() {
    let mut app = App::new(demo::catalog(), Preferences::default());

    assert_eq!(app.screen(), Screen::Welcome);
    app.apply(Action::Confirm);
    assert_eq!(app.screen(), Screen::CitySetup);
    app.apply(Action::Confirm);
    assert_eq!(app.screen(), Screen::CitySetup);
    app.apply(Action::Down);
    app.apply(Action::Confirm);
    assert_eq!(app.screen(), Screen::VenueSetup);
    app.apply(Action::Toggle);
    app.apply(Action::Down);
    app.apply(Action::Toggle);
    app.apply(Action::Down);
    app.apply(Action::Down);
    app.apply(Action::Down);
    let effect = app.apply(Action::Confirm);

    assert_eq!(effect, Effect::SavePreferences);
    assert_eq!(app.screen(), Screen::Movies);
    assert_eq!(app.preferences().favorite_venue_ids.len(), 2);
    assert!(app.preferences().onboarding_complete);
}

#[test]
fn venue_setup_only_lists_venues_in_the_selected_city() {
    let app = App::new(catalog_with_two_cities(), preferences_with_city("Lima"));

    let visible = app.visible_venues();

    assert!(!visible.is_empty());
    assert!(visible.iter().all(|venue| venue.city == "Lima"));
    assert!(visible.iter().all(|venue| venue.id != "arequipa-center"));
}

#[test]
fn out_of_city_favorite_venues_do_not_appear_in_setup_or_rankings() {
    let mut app = App::new(
        catalog_with_two_cities(),
        Preferences {
            favorite_venue_ids: ["arequipa-center".into()].into_iter().collect(),
            ..preferences_with_city("Lima")
        },
    );

    let visible = app.visible_venues();
    assert!(visible.iter().all(|venue| venue.id != "arequipa-center"));
    assert!(
        !visible
            .iter()
            .any(|venue| app.preferences().favorite_venue_ids.contains(&venue.id))
    );
    assert!(
        app.preferences()
            .favorite_venue_ids
            .iter()
            .any(|id| id == "arequipa-center")
    );

    let spider_man = app
        .catalog()
        .movies
        .iter()
        .find(|movie| movie.id == "spider-man")
        .unwrap()
        .id
        .clone();
    app.select_movie(spider_man);
    let showtimes = app.selected_showtimes();
    assert!(
        showtimes
            .iter()
            .all(|showtime| showtime.venue_id != "arequipa-center")
    );
}

#[test]
fn visible_movies_filter_to_those_with_showtimes_in_the_selected_city() {
    let mut catalog = demo::catalog();
    catalog
        .showtimes
        .retain(|showtime| showtime.movie_id != "toy-story");
    catalog
        .venues
        .retain(|venue| venue.id != "alcazar" && venue.id != "san-miguel");

    let app = App::new(catalog, preferences_with_city("Lima"));
    let ids: Vec<_> = app
        .visible_movies()
        .into_iter()
        .map(|movie| movie.id.clone())
        .collect();
    assert!(ids.contains(&"spider-man".to_string()));
    assert!(ids.contains(&"odyssey".to_string()));
    assert!(!ids.contains(&"toy-story".to_string()));
}

#[test]
fn typing_filters_movies_and_confirming_runs_the_ranking() {
    let preferences = Preferences {
        onboarding_complete: true,
        ..preferences_with_city("Lima")
    };
    let mut app = App::new(demo::catalog(), preferences);

    assert_eq!(app.screen(), Screen::Welcome);
    app.apply(Action::Confirm);
    assert_eq!(app.screen(), Screen::Movies);
    app.apply(Action::Character('s'));
    app.apply(Action::Character('p'));
    let effect = app.apply(Action::Confirm);

    assert_eq!(app.screen(), Screen::Loading);
    assert_eq!(effect, Effect::FetchSeatMaps("spider-man".into()));
    let showtimes = app.selected_showtimes();
    app.finish_loading_showtimes(showtimes);
    assert_eq!(app.screen(), Screen::Results);
    assert_eq!(app.current_movie().unwrap().id, "spider-man");
    assert!(!app.recommendations().is_empty());
    assert!(app.recommendations().len() <= 3);
}

#[test]
fn welcome_is_the_initial_screen_on_first_run() {
    let app = App::new(demo::catalog(), Preferences::default());
    assert_eq!(app.screen(), Screen::Welcome);
    assert!(!app.preferences().onboarding_complete);
}

#[test]
fn welcome_is_the_initial_screen_when_preferences_are_complete() {
    let preferences = Preferences {
        onboarding_complete: true,
        ..preferences_with_city("Lima")
    };
    let app = App::new(demo::catalog(), preferences);
    assert_eq!(app.screen(), Screen::Welcome);
}

#[test]
fn welcome_confirm_transitions_to_city_setup_when_no_city_is_saved() {
    let mut app = App::new(demo::catalog(), Preferences::default());

    app.apply(Action::Confirm);

    assert_eq!(app.screen(), Screen::CitySetup);
    assert!(app.preferences().city.is_none());
    assert!(!app.preferences().onboarding_complete);
}

#[test]
fn welcome_confirm_transitions_to_venue_setup_when_city_is_saved() {
    let mut app = App::new(demo::catalog(), preferences_with_city("Lima"));

    app.apply(Action::Confirm);

    assert_eq!(app.screen(), Screen::VenueSetup);
}

#[test]
fn welcome_confirm_transitions_to_movies_when_preferences_are_complete() {
    let preferences = Preferences {
        onboarding_complete: true,
        ..preferences_with_city("Lima")
    };
    let mut app = App::new(demo::catalog(), preferences);

    app.apply(Action::Confirm);

    assert_eq!(app.screen(), Screen::Movies);
}

#[test]
fn welcome_ignores_actions_other_than_confirm() {
    let mut app = App::new(demo::catalog(), Preferences::default());

    for action in [
        Action::Up,
        Action::Down,
        Action::Toggle,
        Action::Character('a'),
        Action::Backspace,
        Action::Back,
        Action::EditVenues,
    ] {
        app.apply(action);
    }

    assert_eq!(app.screen(), Screen::Welcome);
    assert!(!app.should_quit());
    assert!(app.preferences().favorite_venue_ids.is_empty());
    assert!(app.query().is_empty());
}

#[test]
fn esc_navigates_back_to_preceding_screens() {
    let preferences = Preferences {
        onboarding_complete: true,
        ..preferences_with_city("Lima")
    };
    let mut app = App::new(demo::catalog(), preferences);

    // Welcome -> Movies (onboarding complete)
    app.apply(Action::Confirm);
    assert_eq!(app.screen(), Screen::Movies);

    // Movies -> VenueSetup
    app.apply(Action::Back);
    assert_eq!(app.screen(), Screen::VenueSetup);
    assert_eq!(app.venue_setup_caller(), Screen::Movies);

    // VenueSetup -> Movies (caller)
    app.apply(Action::Back);
    assert_eq!(app.screen(), Screen::Movies);

    // Select a movie and go to Results
    app.apply(Action::Confirm);
    assert_eq!(app.screen(), Screen::Loading);
    let showtimes = app.selected_showtimes();
    app.finish_loading_showtimes(showtimes);
    assert_eq!(app.screen(), Screen::Results);

    // Results -> Movies
    app.apply(Action::Back);
    assert_eq!(app.screen(), Screen::Movies);

    // Go back to Results, then SeatMap, then back to Results
    app.apply(Action::Confirm);
    let showtimes = app.selected_showtimes();
    app.finish_loading_showtimes(showtimes);
    app.apply(Action::Confirm);
    assert_eq!(app.screen(), Screen::SeatMap);
    app.apply(Action::Back);
    assert_eq!(app.screen(), Screen::Results);

    // Results -> VenueSetup via EditVenues, then back to Results
    app.apply(Action::EditVenues);
    assert_eq!(app.screen(), Screen::VenueSetup);
    assert_eq!(app.venue_setup_caller(), Screen::Results);
    app.apply(Action::Back);
    assert_eq!(app.screen(), Screen::Results);

    // Loading -> Movies
    app.apply(Action::Confirm);
    let showtimes = app.selected_showtimes();
    app.finish_loading_showtimes(showtimes);
    app.apply(Action::Confirm);
    assert_eq!(app.screen(), Screen::SeatMap);
    app.apply(Action::Back);
    app.apply(Action::Back);
    app.apply(Action::Confirm);
    assert_eq!(app.screen(), Screen::Loading);
    app.apply(Action::Back);
    assert_eq!(app.screen(), Screen::Movies);
}

#[test]
fn city_setup_has_continue_button_and_enter_selects_without_advancing() {
    let mut app = App::new(demo::catalog(), Preferences::default());
    app.apply(Action::Confirm);
    assert_eq!(app.screen(), Screen::CitySetup);

    // Confirm on city selects it but stays
    app.apply(Action::Confirm);
    assert_eq!(app.screen(), Screen::CitySetup);
    assert_eq!(app.preferences().city.as_deref(), Some("Lima"));

    // Down moves to Continue button
    app.apply(Action::Down);
    assert!(app.city_setup_on_continue());

    // Confirm on Continue advances
    app.apply(Action::Confirm);
    assert_eq!(app.screen(), Screen::VenueSetup);
}

#[test]
fn city_setup_esc_returns_to_welcome() {
    let mut app = App::new(demo::catalog(), Preferences::default());
    app.apply(Action::Confirm);
    assert_eq!(app.screen(), Screen::CitySetup);
    app.apply(Action::Back);
    assert_eq!(app.screen(), Screen::Welcome);
}

#[test]
fn venue_setup_enter_toggles_venue_but_stays_enter_on_continue_advances() {
    let mut app = App::new(demo::catalog(), Preferences::default());
    app.apply(Action::Confirm);
    app.apply(Action::Confirm);
    app.apply(Action::Down);
    app.apply(Action::Confirm);
    assert_eq!(app.screen(), Screen::VenueSetup);

    // Enter on first venue toggles it
    app.apply(Action::Confirm);
    assert_eq!(app.preferences().favorite_venue_ids.len(), 1);
    assert_eq!(app.screen(), Screen::VenueSetup);

    // Space on second venue toggles it
    app.apply(Action::Down);
    app.apply(Action::Toggle);
    assert_eq!(app.preferences().favorite_venue_ids.len(), 2);
    assert_eq!(app.screen(), Screen::VenueSetup);

    // Navigate to Continue and confirm
    for _ in 0..3 {
        app.apply(Action::Down);
    }
    assert!(app.venue_setup_on_continue());
    let effect = app.apply(Action::Confirm);
    assert_eq!(effect, Effect::SavePreferences);
    assert_eq!(app.screen(), Screen::Movies);
    assert!(app.preferences().onboarding_complete);
}

#[test]
fn venue_setup_esc_returns_to_caller_during_onboarding() {
    let mut app = App::new(demo::catalog(), preferences_with_city("Lima"));
    app.apply(Action::Confirm);
    assert_eq!(app.screen(), Screen::VenueSetup);
    assert_eq!(app.venue_setup_caller(), Screen::CitySetup);
    app.apply(Action::Back);
    assert_eq!(app.screen(), Screen::CitySetup);
}

#[test]
fn venue_setup_esc_returns_to_caller_when_opened_from_movies() {
    let preferences = Preferences {
        onboarding_complete: true,
        ..preferences_with_city("Lima")
    };
    let mut app = App::new(demo::catalog(), preferences);
    app.apply(Action::Confirm);
    assert_eq!(app.screen(), Screen::Movies);
    app.apply(Action::EditVenues);
    assert_eq!(app.screen(), Screen::VenueSetup);
    assert_eq!(app.venue_setup_caller(), Screen::Movies);
    app.apply(Action::Back);
    assert_eq!(app.screen(), Screen::Movies);
}

#[test]
fn venue_setup_esc_returns_to_caller_when_opened_from_results() {
    let preferences = Preferences {
        onboarding_complete: true,
        ..preferences_with_city("Lima")
    };
    let mut app = App::new(demo::catalog(), preferences);
    app.apply(Action::Confirm);
    app.apply(Action::Confirm);
    let showtimes = app.selected_showtimes();
    app.finish_loading_showtimes(showtimes);
    assert_eq!(app.screen(), Screen::Results);
    app.apply(Action::EditVenues);
    assert_eq!(app.screen(), Screen::VenueSetup);
    assert_eq!(app.venue_setup_caller(), Screen::Results);
    app.apply(Action::Back);
    assert_eq!(app.screen(), Screen::Results);
}

#[test]
fn uppercase_f_opens_filters_from_results_with_all_items_selected() {
    let preferences = Preferences {
        onboarding_complete: true,
        ..preferences_with_city("Lima")
    };
    let mut app = App::new(demo::catalog(), preferences);
    app.apply(Action::Confirm);
    app.apply(Action::Confirm);
    let showtimes = app.selected_showtimes();
    app.finish_loading_showtimes(showtimes);
    assert_eq!(app.screen(), Screen::Results);

    app.apply(Action::OpenFilters);
    assert_eq!(app.screen(), Screen::Filters);
    assert!(!app.filter_dates().is_empty());
    assert!(!app.filter_venues().is_empty());
    assert_eq!(app.selected_filter_dates().len(), app.filter_dates().len());
    assert_eq!(
        app.selected_filter_venues().len(),
        app.filter_venues().len()
    );
}

#[test]
fn esc_cancels_filters_and_returns_to_results() {
    let preferences = Preferences {
        onboarding_complete: true,
        ..preferences_with_city("Lima")
    };
    let mut app = App::new(demo::catalog(), preferences);
    app.apply(Action::Confirm);
    app.apply(Action::Confirm);
    let showtimes = app.selected_showtimes();
    app.finish_loading_showtimes(showtimes);
    app.apply(Action::OpenFilters);
    assert_eq!(app.screen(), Screen::Filters);

    app.apply(Action::Back);
    assert_eq!(app.screen(), Screen::Results);
}

#[test]
fn applying_date_and_venue_filters_removes_nonmatching_showtimes() {
    let preferences = Preferences {
        onboarding_complete: true,
        ..preferences_with_city("Lima")
    };
    let mut app = App::new(demo::catalog(), preferences);
    app.apply(Action::Confirm);
    app.apply(Action::Confirm);
    let showtimes = app.selected_showtimes();
    app.finish_loading_showtimes(showtimes);
    assert_eq!(app.screen(), Screen::Results);
    let initial_count = app.recommendations().len();
    assert!(initial_count > 1, "need multiple results to test filtering");

    app.apply(Action::OpenFilters);
    let first_date = app.filter_dates()[0].clone();
    let first_venue = app.filter_venues()[0].clone();

    // Deselect first date
    app.apply(Action::Toggle);
    // Navigate to first venue and deselect
    for _ in 0..app.filter_dates().len() {
        app.apply(Action::Down);
    }
    app.apply(Action::Toggle);
    // Navigate to apply button
    for _ in 0..app.filter_venues().len() {
        app.apply(Action::Down);
    }
    app.apply(Action::Confirm);

    assert_eq!(app.screen(), Screen::Results);
    assert!(app.filters_active());
    assert!(app.recommendations().len() < initial_count);
    for rec in app.recommendations() {
        assert_ne!(date_label(rec.showtime.starts_at), first_date);
        assert_ne!(rec.showtime.venue_id, first_venue);
    }
}

#[test]
fn favorites_remain_only_a_ranking_bonus_without_implicit_restriction() {
    let mut preferences = Preferences {
        onboarding_complete: true,
        ..preferences_with_city("Lima")
    };
    preferences.favorite_venue_ids.push("la-molina".into());
    let favorite_ids = preferences.favorite_venue_ids.clone();
    let mut app = App::new(demo::catalog(), preferences);
    app.apply(Action::Confirm);
    app.apply(Action::Confirm);
    let showtimes = app.selected_showtimes();
    app.finish_loading_showtimes(showtimes);

    // Set filter to include only a non-favorite venue
    let non_favorite = app
        .filter_venues()
        .iter()
        .find(|v| !favorite_ids.contains(*v))
        .cloned()
        .unwrap();
    app.set_selected_filter_venues(vec![non_favorite.clone()]);
    app.recompute_recommendations();

    assert!(!app.recommendations().is_empty());
    assert!(
        app.recommendations()
            .iter()
            .all(|rec| rec.showtime.venue_id == non_favorite)
    );
}

#[test]
fn filter_navigation_wraps_around_all_items() {
    let preferences = Preferences {
        onboarding_complete: true,
        ..preferences_with_city("Lima")
    };
    let mut app = App::new(demo::catalog(), preferences);
    app.apply(Action::Confirm);
    app.apply(Action::Confirm);
    let showtimes = app.selected_showtimes();
    app.finish_loading_showtimes(showtimes);
    app.apply(Action::OpenFilters);
    assert_eq!(app.screen(), Screen::Filters);

    let total = app.filter_dates().len() + app.filter_venues().len() + 1;
    assert!(total > 1);
    assert_eq!(app.filter_cursor(), 0);

    app.apply(Action::Up);
    assert_eq!(app.filter_cursor(), total - 1);

    app.apply(Action::Down);
    assert_eq!(app.filter_cursor(), 0);
}
