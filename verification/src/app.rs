//! The interactive flow: onboarding (city, favorite venues), movie search,
//! ranked results, filters and the seat map, as a state machine driven by
//! key actions. Each action's effect on the state is stated by `step`.
use vstd::prelude::*;

use crate::clock::date_label;
use crate::domain::{
    Catalog, Movie, Preferences, Recommendation, Showtime, Venue, contains_text_item, copy_opt_text, copy_texts, has_text,
    same_showtime, texts,
};
use crate::listing::{
    add_city, city_order, lemma_city_order, lemma_listing, lemma_text_order, lemma_texts_contains,
    lemma_ordered_unique, lemma_texts_ordered, listing, lists, ordered_by, strs, text_order, toggle_text, toggled,
};
use crate::ranking::{acceptable, analyses, analysis_of, lemma_recommendations_are_accepted_analyses, presents, ranked, recommend, recommended};
use crate::viewing::{ViewingAssessment, assessed};
use crate::recommendation::{
    find_movie_by_id, find_venue_by_id, first_movie_with_id, first_venue_with_id, same_showtimes,
    sorted, start_date, strictly_sorted,
};
use crate::text::{
    compare_text, contains, contains_text, owned, push_char, string_of, chars_of,
    text_lowercase, unicode_lowercase_text,
};

verus! {

#[derive(Clone, Copy, Debug, PartialEq, Eq, Structural)]
pub enum Screen {
    Welcome,
    CitySetup,
    VenueSetup,
    Movies,
    Loading,
    Results,
    Filters,
    SeatMap,
}

#[derive(Clone, Copy, Debug, PartialEq, Eq, Structural)]
pub enum Action {
    Up,
    Down,
    Toggle,
    Confirm,
    Character(char),
    Backspace,
    Back,
    EditVenues,
    OpenFilters,
    Quit,
}

/// What the caller must do after an action.
#[derive(Clone, Debug, PartialEq, Eq)]
pub enum Effect {
    Nothing,
    SavePreferences,
    FetchSeatMaps(String),
}

pub struct App {
    catalog: Catalog,
    preferences: Preferences,
    screen: Screen,
    city_index: usize,
    venue_index: usize,
    movie_index: usize,
    query: String,
    selected_movie_id: Option<String>,
    recommendations: Vec<Recommendation>,
    result_index: usize,
    should_quit: bool,
    is_demo: bool,
    venue_setup_caller: Screen,
    filter_dates: Vec<String>,
    filter_venues: Vec<String>,
    selected_filter_dates: Vec<String>,
    selected_filter_venues: Vec<String>,
    filter_cursor: usize,
}

/// The state of an `App`, with texts as character sequences and cursors as
/// integers.
#[verifier::ext_equal]
pub struct AppView {
    pub catalog: Catalog,
    pub preferences: Preferences,
    pub screen: Screen,
    pub city_index: int,
    pub venue_index: int,
    pub movie_index: int,
    pub query: Seq<char>,
    pub selected_movie_id: Option<Seq<char>>,
    pub recommendations: Seq<Recommendation>,
    pub result_index: int,
    pub should_quit: bool,
    pub is_demo: bool,
    pub venue_setup_caller: Screen,
    pub filter_dates: Seq<Seq<char>>,
    pub filter_venues: Seq<Seq<char>>,
    pub selected_filter_dates: Seq<Seq<char>>,
    pub selected_filter_venues: Seq<Seq<char>>,
    pub filter_cursor: int,
}

impl View for App {
    type V = AppView;

    closed spec fn view(&self) -> AppView {
        AppView {
            catalog: self.catalog,
            preferences: self.preferences,
            screen: self.screen,
            city_index: self.city_index as int,
            venue_index: self.venue_index as int,
            movie_index: self.movie_index as int,
            query: self.query@,
            selected_movie_id: match self.selected_movie_id {
                Some(id) => Some(id@),
                None => None,
            },
            recommendations: self.recommendations@,
            result_index: self.result_index as int,
            should_quit: self.should_quit,
            is_demo: self.is_demo,
            venue_setup_caller: self.venue_setup_caller,
            filter_dates: texts(self.filter_dates@),
            filter_venues: texts(self.filter_venues@),
            selected_filter_dates: texts(self.selected_filter_dates@),
            selected_filter_venues: texts(self.selected_filter_venues@),
            filter_cursor: self.filter_cursor as int,
        }
    }
}

// ---------------------------------------------------------------------------
// What the screens list.
// ---------------------------------------------------------------------------
/// The cities of the venues, as a pool.
pub open spec fn city_pool(venues: Seq<Venue>) -> Seq<Seq<char>> {
    venues.map_values(|v: Venue| v.city@)
}

/// The distinct cities of the venues, Lima first, then in code-point order.
pub open spec fn cities_of(s: AppView) -> Seq<Seq<char>> {
    listing(city_pool(s.catalog.venues@), city_order())
}

/// The city of the first venue with the given id.
pub open spec fn city_of_venue(venues: Seq<Venue>, id: Seq<char>) -> Option<Seq<char>> {
    match first_venue_with_id(venues, id) {
        Some(k) => Some(venues[k].city@),
        None => None,
    }
}

/// The venues of a city, in catalog order.
pub open spec fn venues_in(venues: Seq<Venue>, city: Seq<char>) -> Seq<Venue>
    decreases venues.len(),
{
    if venues.len() == 0 {
        Seq::empty()
    } else if venues.last().city@ == city {
        venues_in(venues.drop_last(), city).push(venues.last())
    } else {
        venues_in(venues.drop_last(), city)
    }
}

/// The venues offered for the favorites: those of the saved city, none
/// without one.
pub open spec fn visible_venues_of(s: AppView) -> Seq<Venue> {
    match s.preferences.city {
        Some(c) => venues_in(s.catalog.venues@, c@),
        None => Seq::empty(),
    }
}

/// The movie's lower-cased title contains the lower-cased query, or the
/// lower-cased query is empty.
pub open spec fn title_matches(title: Seq<char>, lowered_query: Seq<char>) -> bool {
    lowered_title_matches(unicode_lowercase_text(title), lowered_query)
}

/// An already lower-cased title matches an already lower-cased query: the
/// query is empty or the title contains it.
pub open spec fn lowered_title_matches(lowered_title: Seq<char>, lowered_query: Seq<char>) -> bool {
    lowered_query.len() == 0 || contains_text(lowered_title, lowered_query)
}

/// Whether a lower-cased title matches a lower-cased query.
pub fn lowered_title_matches_query(lowered_title: &str, lowered_query: &str) -> (r: bool)
    ensures
        r == lowered_title_matches(lowered_title@, lowered_query@),
{
    lowered_query.is_empty() || contains(lowered_title, lowered_query)
}

/// The movie has a showtime at a venue of the city; any movie does when no
/// city is saved.
pub open spec fn movie_in_city(catalog: Catalog, m: Movie, city: Option<String>) -> bool {
    match city {
        Some(c) => exists|k: int|
            0 <= k < catalog.showtimes@.len() && (#[trigger] catalog.showtimes@[k]).movie_id@ == m.id@
                && city_of_venue(catalog.venues@, catalog.showtimes@[k].venue_id@) == Some(c@),
        None => true,
    }
}

pub open spec fn movie_shown(catalog: Catalog, m: Movie, lowered_query: Seq<char>, city: Option<String>) -> bool {
    title_matches(m.title@, lowered_query) && movie_in_city(catalog, m, city)
}

/// The movies shown, in catalog order.
pub open spec fn movies_shown(catalog: Catalog, movies: Seq<Movie>, lowered_query: Seq<char>, city: Option<String>) -> Seq<Movie>
    decreases movies.len(),
{
    if movies.len() == 0 {
        Seq::empty()
    } else if movie_shown(catalog, movies.last(), lowered_query, city) {
        movies_shown(catalog, movies.drop_last(), lowered_query, city).push(movies.last())
    } else {
        movies_shown(catalog, movies.drop_last(), lowered_query, city)
    }
}

pub open spec fn visible_movies_of(s: AppView) -> Seq<Movie> {
    movies_shown(s.catalog, s.catalog.movies@, unicode_lowercase_text(s.query), s.preferences.city)
}

/// The showtime is of the selected movie, at a venue of the saved city when
/// there is one.
pub open spec fn is_selected(s: AppView, st: Showtime) -> bool {
    match s.selected_movie_id {
        Some(id) => st.movie_id@ == id && match s.preferences.city {
            Some(c) => city_of_venue(s.catalog.venues@, st.venue_id@) == Some(c@),
            None => true,
        },
        None => false,
    }
}

/// The showtime's date and venue are among the selected ones; an empty
/// selection lets everything through.
pub open spec fn passes_filters(s: AppView, st: Showtime) -> bool {
    &&& (s.selected_filter_dates.len() == 0 || s.selected_filter_dates.contains(start_date(st)))
    &&& (s.selected_filter_venues.len() == 0 || s.selected_filter_venues.contains(st.venue_id@))
}

/// The showtimes that satisfy `f`, in order.
pub open spec fn keep(sts: Seq<Showtime>, f: spec_fn(Showtime) -> bool) -> Seq<Showtime>
    decreases sts.len(),
{
    if sts.len() == 0 {
        Seq::empty()
    } else if f(sts.last()) {
        keep(sts.drop_last(), f).push(sts.last())
    } else {
        keep(sts.drop_last(), f)
    }
}

pub open spec fn selected_of(s: AppView) -> Seq<Showtime> {
    keep(s.catalog.showtimes@, |st: Showtime| is_selected(s, st))
}

pub open spec fn filtered_of(s: AppView) -> Seq<Showtime> {
    keep(s.catalog.showtimes@, |st: Showtime| is_selected(s, st) && passes_filters(s, st))
}

pub open spec fn date_pool(sts: Seq<Showtime>) -> Seq<Seq<char>> {
    sts.map_values(|st: Showtime| start_date(st))
}

pub open spec fn venue_pool(sts: Seq<Showtime>) -> Seq<Seq<char>> {
    sts.map_values(|st: Showtime| st.venue_id@)
}

/// The filters rebuilt from the selected showtimes: every date and venue,
/// each listed once in increasing order, all selected, the cursor on the
/// first item.
pub open spec fn with_filters(s: AppView) -> AppView {
    let dates = listing(date_pool(selected_of(s)), text_order());
    let venues = listing(venue_pool(selected_of(s)), text_order());
    AppView {
        filter_dates: dates,
        filter_venues: venues,
        selected_filter_dates: dates,
        selected_filter_venues: venues,
        filter_cursor: 0,
        ..s
    }
}

/// `r` is the ranking, at most three, of copies of the filtered showtimes.
pub open spec fn ranks(s: AppView, r: Seq<Recommendation>) -> bool {
    exists|c: Seq<Showtime>| #[trigger] same_showtimes(c, filtered_of(s)) && recommended(c, s.preferences, 3, r)
}

// ---------------------------------------------------------------------------
// Transitions.
// ---------------------------------------------------------------------------
/// `n + 1`, saturating at `usize::MAX`.
pub open spec fn succ_sat(n: int) -> int {
    if n < usize::MAX {
        n + 1
    } else {
        n
    }
}

/// The cursor moved up, wrapping from the first item to the last.
pub open spec fn wrap_up(i: int, count: int) -> int {
    if i == 0 {
        count - 1
    } else {
        i - 1
    }
}

/// The cursor moved down, wrapping from the last item to the first.
pub open spec fn wrap_down(i: int, count: int) -> int {
    (i + 1) % count
}

/// The saved city has a venue.
pub open spec fn saved_city_available(s: AppView) -> bool {
    match s.preferences.city {
        Some(c) => city_pool(s.catalog.venues@).contains(c@),
        None => false,
    }
}

/// The first position of `t` in `list`.
pub open spec fn first_index(list: Seq<Seq<char>>, t: Seq<char>) -> Option<int>
    decreases list.len(),
{
    if list.len() == 0 {
        None
    } else if list[0] == t {
        Some(0)
    } else {
        match first_index(list.drop_first(), t) {
            Some(k) => Some(k + 1),
            None => None,
        }
    }
}

/// Where the city cursor starts: on the saved city, else on the first.
pub open spec fn city_start(s: AppView) -> int {
    match s.preferences.city {
        Some(c) => match first_index(cities_of(s), c@) {
            Some(k) => k,
            None => 0,
        },
        None => 0,
    }
}

/// `q` is `p` with the city set to `city`.
pub open spec fn with_city(p: Preferences, q: Preferences, city: Seq<char>) -> bool {
    &&& q == Preferences { city: q.city, ..p }
    &&& q.city is Some
    &&& q.city.unwrap()@ == city
}

/// `q` is `p` with venue `id` added to the favorites when absent and
/// removed when present.
pub open spec fn with_favorite_toggled(p: Preferences, q: Preferences, id: Seq<char>) -> bool {
    &&& q == Preferences { favorite_venue_ids: q.favorite_venue_ids, ..p }
    &&& toggled(texts(p.favorite_venue_ids@), texts(q.favorite_venue_ids@), id)
}

/// The number of items on the filters screen, the apply button included.
pub open spec fn filter_count(s: AppView) -> int {
    let n = (s.filter_dates.len() + s.filter_venues.len() + 1) as int;
    if n <= usize::MAX {
        n
    } else {
        usize::MAX as int
    }
}

/// The filter cursor is on the apply button.
pub open spec fn on_apply(s: AppView) -> bool {
    s.filter_cursor == s.filter_dates.len() + s.filter_venues.len()
}

/// Toggling under the filter cursor: the date there, or past the dates the
/// venue there; on the apply button nothing.
pub open spec fn filter_toggle(s: AppView, t: AppView) -> bool {
    let c = s.filter_cursor;
    let d = s.filter_dates;
    &&& t == AppView {
        selected_filter_dates: t.selected_filter_dates,
        selected_filter_venues: t.selected_filter_venues,
        ..s
    }
    &&& if c < d.len() {
        &&& toggled(s.selected_filter_dates, t.selected_filter_dates, d[c])
        &&& t.selected_filter_venues == s.selected_filter_venues
    } else if c - d.len() < s.filter_venues.len() {
        &&& t.selected_filter_dates == s.selected_filter_dates
        &&& toggled(s.selected_filter_venues, t.selected_filter_venues, s.filter_venues[c - d.len()])
    } else {
        &&& t.selected_filter_dates == s.selected_filter_dates
        &&& t.selected_filter_venues == s.selected_filter_venues
    }
}

/// Opening the venue setup from `caller`.
pub open spec fn to_venue_setup(s: AppView, caller: Screen) -> AppView {
    AppView { venue_index: 0, venue_setup_caller: caller, screen: Screen::VenueSetup, ..s }
}

/// Action `a` takes state `s` to state `t` and asks for effect `e`.
pub open spec fn step(s: AppView, a: Action, t: AppView, e: Effect) -> bool {
    if a == Action::Quit {
        t == AppView { should_quit: true, ..s } && e == Effect::Nothing
    } else {
        match (s.screen, a) {
            (Screen::Welcome, Action::Confirm) => e == Effect::Nothing && if !saved_city_available(s) {
                t == AppView { screen: Screen::CitySetup, city_index: city_start(s), ..s }
            } else if !s.preferences.onboarding_complete {
                t == to_venue_setup(s, Screen::CitySetup)
            } else {
                t == AppView { screen: Screen::Movies, ..s }
            },
            (Screen::CitySetup, Action::Up) => e == Effect::Nothing && t == AppView {
                city_index: wrap_up(s.city_index, succ_sat(cities_of(s).len() as int)),
                ..s
            },
            (Screen::CitySetup, Action::Down) => e == Effect::Nothing && t == AppView {
                city_index: wrap_down(s.city_index, succ_sat(cities_of(s).len() as int)),
                ..s
            },
            (Screen::CitySetup, Action::Confirm) => {
                let cs = cities_of(s);
                if s.city_index < cs.len() {
                    &&& e == Effect::SavePreferences
                    &&& t == AppView { preferences: t.preferences, venue_index: 0, ..s }
                    &&& with_city(s.preferences, t.preferences, cs[s.city_index])
                } else if s.city_index == cs.len() {
                    e == Effect::SavePreferences && if s.preferences.onboarding_complete {
                        t == AppView { screen: Screen::Movies, ..s }
                    } else {
                        t == AppView {
                            screen: Screen::VenueSetup,
                            venue_setup_caller: Screen::CitySetup,
                            ..s
                        }
                    }
                } else {
                    t == s && e == Effect::Nothing
                }
            },
            (Screen::CitySetup, Action::Back) => e == Effect::Nothing && t == AppView {
                screen: Screen::Welcome,
                ..s
            },
            (Screen::VenueSetup, Action::Up) => e == Effect::Nothing && t == AppView {
                venue_index: wrap_up(s.venue_index, succ_sat(visible_venues_of(s).len() as int)),
                ..s
            },
            (Screen::VenueSetup, Action::Down) => e == Effect::Nothing && t == AppView {
                venue_index: wrap_down(s.venue_index, succ_sat(visible_venues_of(s).len() as int)),
                ..s
            },
            (Screen::VenueSetup, Action::Toggle) => {
                let vs = visible_venues_of(s);
                e == Effect::Nothing && if s.venue_index < vs.len() {
                    t == AppView { preferences: t.preferences, ..s } && with_favorite_toggled(
                        s.preferences,
                        t.preferences,
                        vs[s.venue_index].id@,
                    )
                } else {
                    t == s
                }
            },
            (Screen::VenueSetup, Action::Confirm) => {
                let vs = visible_venues_of(s);
                if s.venue_index < vs.len() {
                    &&& e == Effect::Nothing
                    &&& t == AppView { preferences: t.preferences, ..s }
                    &&& with_favorite_toggled(s.preferences, t.preferences, vs[s.venue_index].id@)
                } else if s.venue_index == vs.len() {
                    &&& e == Effect::SavePreferences
                    &&& t == AppView {
                        preferences: Preferences { onboarding_complete: true, ..s.preferences },
                        screen: Screen::Movies,
                        ..s
                    }
                } else {
                    t == s && e == Effect::Nothing
                }
            },
            (Screen::VenueSetup, Action::Back) => e == Effect::Nothing && t == AppView {
                screen: s.venue_setup_caller,
                ..s
            },
            (Screen::Movies, Action::Character(c)) => e == Effect::Nothing && t == AppView {
                query: s.query.push(c),
                movie_index: 0,
                ..s
            },
            (Screen::Movies, Action::Backspace) => e == Effect::Nothing && t == AppView {
                query: if s.query.len() > 0 {
                    s.query.drop_last()
                } else {
                    s.query
                },
                movie_index: 0,
                ..s
            },
            (Screen::Movies, Action::Up) => {
                let n = visible_movies_of(s).len() as int;
                e == Effect::Nothing && if n > 0 {
                    t == AppView { movie_index: wrap_up(s.movie_index, n), ..s }
                } else {
                    t == s
                }
            },
            (Screen::Movies, Action::Down) => {
                let n = visible_movies_of(s).len() as int;
                e == Effect::Nothing && if n > 0 {
                    t == AppView { movie_index: wrap_down(s.movie_index, n), ..s }
                } else {
                    t == s
                }
            },
            (Screen::Movies, Action::Confirm) => {
                let ms = visible_movies_of(s);
                if s.movie_index < ms.len() {
                    &&& e matches Effect::FetchSeatMaps(id) && id@ == ms[s.movie_index].id@
                    &&& t == AppView {
                        selected_movie_id: Some(ms[s.movie_index].id@),
                        screen: Screen::Loading,
                        ..s
                    }
                } else {
                    t == s && e == Effect::Nothing
                }
            },
            (Screen::Movies, Action::EditVenues) => e == Effect::Nothing && t == to_venue_setup(
                s,
                Screen::Movies,
            ),
            (Screen::Movies, Action::Back) => e == Effect::Nothing && t == to_venue_setup(
                s,
                Screen::Movies,
            ),
            (Screen::Results, Action::Up) => {
                let n = s.recommendations.len() as int;
                e == Effect::Nothing && if n > 0 {
                    t == AppView { result_index: wrap_up(s.result_index, n), ..s }
                } else {
                    t == s
                }
            },
            (Screen::Results, Action::Down) => {
                let n = s.recommendations.len() as int;
                e == Effect::Nothing && if n > 0 {
                    t == AppView { result_index: wrap_down(s.result_index, n), ..s }
                } else {
                    t == s
                }
            },
            (Screen::Results, Action::Confirm) => e == Effect::Nothing && if s.result_index
                < s.recommendations.len() {
                t == AppView { screen: Screen::SeatMap, ..s }
            } else {
                t == s
            },
            (Screen::Results, Action::Back) => e == Effect::Nothing && t == AppView {
                screen: Screen::Movies,
                ..s
            },
            (Screen::Loading, Action::Back) => e == Effect::Nothing && t == AppView {
                screen: Screen::Movies,
                ..s
            },
            (Screen::Results, Action::EditVenues) => e == Effect::Nothing && t == to_venue_setup(
                s,
                Screen::Results,
            ),
            (Screen::Results, Action::OpenFilters) => e == Effect::Nothing && t == AppView {
                screen: Screen::Filters,
                ..with_filters(s)
            },
            (Screen::Filters, Action::Up) => e == Effect::Nothing && t == AppView {
                filter_cursor: wrap_up(s.filter_cursor, filter_count(s)),
                ..s
            },
            (Screen::Filters, Action::Down) => e == Effect::Nothing && t == AppView {
                filter_cursor: wrap_down(s.filter_cursor, filter_count(s)),
                ..s
            },
            (Screen::Filters, Action::Toggle) => e == Effect::Nothing && filter_toggle(s, t),
            (Screen::Filters, Action::Confirm) => e == Effect::Nothing && if on_apply(s) {
                &&& t == AppView {
                    recommendations: t.recommendations,
                    result_index: 0,
                    screen: Screen::Results,
                    ..s
                }
                &&& ranks(s, t.recommendations)
            } else {
                filter_toggle(s, t)
            },
            (Screen::Filters, Action::Back) => e == Effect::Nothing && t == AppView {
                screen: Screen::Results,
                ..s
            },
            (Screen::SeatMap, Action::Back) => e == Effect::Nothing && t == AppView {
                screen: Screen::Results,
                ..s
            },
            _ => t == s && e == Effect::Nothing,
        }
    }
}

/// The invariant of the state: every text list strictly increasing and
/// every cursor below `usize::MAX`.
pub open spec fn valid(s: AppView) -> bool {
    &&& ordered_by(s.filter_dates, text_order())
    &&& ordered_by(s.filter_venues, text_order())
    &&& ordered_by(s.selected_filter_dates, text_order())
    &&& ordered_by(s.selected_filter_venues, text_order())
    &&& ordered_by(texts(s.preferences.favorite_venue_ids@), text_order())
    &&& 0 <= s.city_index < usize::MAX
    &&& 0 <= s.venue_index < usize::MAX
    &&& 0 <= s.movie_index < usize::MAX
    &&& 0 <= s.result_index < usize::MAX
    &&& 0 <= s.filter_cursor < usize::MAX
}

/// The state a new app starts in: the welcome screen, nothing searched or
/// selected, favorites listed once each in increasing order.
pub open spec fn initial(v: AppView, catalog: Catalog, p: Preferences, is_demo: bool) -> bool {
    &&& v == AppView {
        catalog,
        preferences: Preferences { favorite_venue_ids: v.preferences.favorite_venue_ids, ..p },
        screen: Screen::Welcome,
        city_index: 0,
        venue_index: 0,
        movie_index: 0,
        query: Seq::empty(),
        selected_movie_id: None,
        recommendations: Seq::empty(),
        result_index: 0,
        should_quit: false,
        is_demo,
        venue_setup_caller: Screen::Movies,
        filter_dates: Seq::empty(),
        filter_venues: Seq::empty(),
        selected_filter_dates: Seq::empty(),
        selected_filter_venues: Seq::empty(),
        filter_cursor: 0,
    }
    &&& lists(texts(v.preferences.favorite_venue_ids@), texts(p.favorite_venue_ids@), text_order())
}

/// The texts of `v`, strictly increasing, exactly those of `values`.
proof fn lemma_sorted_lists(r: Seq<String>, values: Seq<String>)
    requires
        strictly_sorted(r),
        forall|t: Seq<char>| has_text(r, t) <==> has_text(values, t),
    ensures
        lists(texts(r), texts(values), text_order()),
{
    lemma_texts_ordered(r);
    lemma_texts_contains(r);
    lemma_texts_contains(values);
    assert forall|t: Seq<char>| texts(r).contains(t) <==> texts(values).contains(t) by {
        assert(has_text(r, t) <==> texts(r).contains(t));
        assert(has_text(values, t) <==> texts(values).contains(t));
    }
}

impl App {
    /// The state invariant.
    pub open spec fn wf(&self) -> bool {
        valid(self@)
    }

    /// An app over demo data.
    pub fn new(catalog: Catalog, preferences: Preferences) -> (r: App)
        ensures
            r.wf(),
            initial(r@, catalog, preferences, true),
    {
        Self::with_mode(catalog, preferences, true)
    }

    /// An app over live data.
    pub fn live(catalog: Catalog, preferences: Preferences) -> (r: App)
        ensures
            r.wf(),
            initial(r@, catalog, preferences, false),
    {
        Self::with_mode(catalog, preferences, false)
    }

    fn with_mode(catalog: Catalog, preferences: Preferences, is_demo: bool) -> (r: App)
        ensures
            r.wf(),
            initial(r@, catalog, preferences, is_demo),
    {
        let favorites = sorted(&preferences.favorite_venue_ids);
        proof {
            lemma_sorted_lists(favorites@, preferences.favorite_venue_ids@);
        }
        let ghost p = preferences;
        let preferences = Preferences { favorite_venue_ids: favorites, ..preferences };
        let r = App {
            catalog,
            preferences,
            screen: Screen::Welcome,
            city_index: 0,
            venue_index: 0,
            movie_index: 0,
            query: String::new(),
            selected_movie_id: None,
            recommendations: Vec::new(),
            result_index: 0,
            should_quit: false,
            is_demo,
            venue_setup_caller: Screen::Movies,
            filter_dates: Vec::new(),
            filter_venues: Vec::new(),
            selected_filter_dates: Vec::new(),
            selected_filter_venues: Vec::new(),
            filter_cursor: 0,
        };
        proof {
            assert(texts(r.filter_dates@) =~= Seq::empty());
            assert(texts(r.filter_venues@) =~= Seq::empty());
            assert(texts(r.selected_filter_dates@) =~= Seq::empty());
            assert(texts(r.selected_filter_venues@) =~= Seq::empty());
            assert(r@ =~= AppView {
                catalog,
                preferences: Preferences { favorite_venue_ids: r@.preferences.favorite_venue_ids, ..p },
                screen: Screen::Welcome,
                city_index: 0,
                venue_index: 0,
                movie_index: 0,
                query: Seq::empty(),
                selected_movie_id: None,
                recommendations: Seq::empty(),
                result_index: 0,
                should_quit: false,
                is_demo,
                venue_setup_caller: Screen::Movies,
                filter_dates: Seq::empty(),
                filter_venues: Seq::empty(),
                selected_filter_dates: Seq::empty(),
                selected_filter_venues: Seq::empty(),
                filter_cursor: 0,
            });
        }
        r
    }

    pub fn screen(&self) -> (r: Screen)
        ensures
            r == self@.screen,
    {
        self.screen
    }

    pub fn preferences(&self) -> (r: &Preferences)
        ensures
            *r == self@.preferences,
    {
        &self.preferences
    }

    /// The selected movie: the first of the catalog with the selected id.
    pub fn current_movie(&self) -> (r: Option<&Movie>)
        ensures
            r == match self@.selected_movie_id {
                Some(id) => match first_movie_with_id(self@.catalog.movies@, id) {
                    Some(k) => Some(&self@.catalog.movies@[k]),
                    None => None,
                },
                None => None,
            },
    {
        match &self.selected_movie_id {
            Some(id) => match find_movie_by_id(&self.catalog.movies, id.as_str()) {
                Some(k) => Some(&self.catalog.movies[k]),
                None => None,
            },
            None => None,
        }
    }

    pub fn recommendations(&self) -> (r: &[Recommendation])
        ensures
            r@ == self@.recommendations,
    {
        self.recommendations.as_slice()
    }

    pub fn catalog(&self) -> (r: &Catalog)
        ensures
            *r == self@.catalog,
    {
        &self.catalog
    }

    pub fn query(&self) -> (r: &str)
        ensures
            r@ == self@.query,
    {
        self.query.as_str()
    }

    pub fn city_index(&self) -> (r: usize)
        ensures
            r == self@.city_index,
    {
        self.city_index
    }

    pub fn venue_index(&self) -> (r: usize)
        ensures
            r == self@.venue_index,
    {
        self.venue_index
    }

    pub fn movie_index(&self) -> (r: usize)
        ensures
            r == self@.movie_index,
    {
        self.movie_index
    }

    pub fn result_index(&self) -> (r: usize)
        ensures
            r == self@.result_index,
    {
        self.result_index
    }

    pub fn filter_dates(&self) -> (r: &[String])
        ensures
            texts(r@) == self@.filter_dates,
    {
        self.filter_dates.as_slice()
    }

    pub fn filter_venues(&self) -> (r: &[String])
        ensures
            texts(r@) == self@.filter_venues,
    {
        self.filter_venues.as_slice()
    }

    /// The selected dates, in increasing order.
    pub fn selected_filter_dates(&self) -> (r: &Vec<String>)
        ensures
            texts(r@) == self@.selected_filter_dates,
    {
        &self.selected_filter_dates
    }

    /// The selected venues, in increasing order.
    pub fn selected_filter_venues(&self) -> (r: &Vec<String>)
        ensures
            texts(r@) == self@.selected_filter_venues,
    {
        &self.selected_filter_venues
    }

    pub fn filter_cursor(&self) -> (r: usize)
        ensures
            r == self@.filter_cursor,
    {
        self.filter_cursor
    }

    /// The screen the venue setup returns to.
    pub fn venue_setup_caller(&self) -> (r: Screen)
        ensures
            r == self@.venue_setup_caller,
    {
        self.venue_setup_caller
    }

    /// Whether the filter cursor is on the apply button.
    pub fn filter_on_apply(&self) -> (r: bool)
        ensures
            r == on_apply(self@),
    {
        self.filter_cursor >= self.filter_dates.len() && self.filter_cursor - self.filter_dates.len()
            == self.filter_venues.len()
    }

    /// Whether some listed date or venue is deselected.
    pub fn filters_active(&self) -> (r: bool)
        ensures
            r == ((self@.filter_dates.len() > 0 && self@.selected_filter_dates.len()
                < self@.filter_dates.len()) || (self@.filter_venues.len() > 0
                && self@.selected_filter_venues.len() < self@.filter_venues.len())),
    {
        (!self.filter_dates.is_empty() && self.selected_filter_dates.len() < self.filter_dates.len())
            || (!self.filter_venues.is_empty() && self.selected_filter_venues.len()
            < self.filter_venues.len())
    }

    pub fn should_quit(&self) -> (r: bool)
        ensures
            r == self@.should_quit,
    {
        self.should_quit
    }

    pub fn is_demo(&self) -> (r: bool)
        ensures
            r == self@.is_demo,
    {
        self.is_demo
    }

    /// The recommendation under the result cursor.
    pub fn current_recommendation(&self) -> (r: Option<&Recommendation>)
        ensures
            r == if self@.result_index < self@.recommendations.len() {
                Some(&self@.recommendations[self@.result_index])
            } else {
                None
            },
    {
        if self.result_index < self.recommendations.len() {
            Some(&self.recommendations[self.result_index])
        } else {
            None
        }
    }
}

impl App {
    /// The city of the first venue with the given id.
    fn city_for_venue(&self, venue_id: &str) -> (r: Option<&str>)
        ensures
            match r {
                Some(c) => city_of_venue(self.catalog.venues@, venue_id@) == Some(c@),
                None => city_of_venue(self.catalog.venues@, venue_id@) is None,
            },
    {
        match find_venue_by_id(&self.catalog.venues, venue_id) {
            Some(k) => Some(self.catalog.venues[k].city.as_str()),
            None => None,
        }
    }

    /// The distinct cities of the venues, Lima first, then in code-point
    /// order.
    pub fn available_cities(&self) -> (r: Vec<&str>)
        ensures
            strs(r@) == cities_of(self@),
            lists(strs(r@), city_pool(self@.catalog.venues@), city_order()),
    {
        let venues = &self.catalog.venues;
        let mut out: Vec<&str> = Vec::new();
        let mut k: usize = 0;
        proof {
            assert(strs(out@) =~= Seq::empty());
        }
        while k < venues.len()
            invariant
                k <= venues.len(),
                ordered_by(strs(out@), city_order()),
                forall|t: Seq<char>|
                    #[trigger] strs(out@).contains(t) <==> city_pool(venues@.take(k as int)).contains(t),
            decreases venues.len() - k,
        {
            let ghost before = strs(out@);
            add_city(&mut out, venues[k].city.as_str());
            proof {
                let p0 = city_pool(venues@.take(k as int));
                let p1 = city_pool(venues@.take(k + 1));
                assert(p1 =~= p0.push(venues@[k as int].city@));
                assert forall|t: Seq<char>| #[trigger] strs(out@).contains(t) <==> p1.contains(t) by {
                    if p0.contains(t) {
                        let m = choose|m: int| 0 <= m < p0.len() && p0[m] == t;
                        assert(p1[m] == t);
                    }
                    if p1.contains(t) {
                        let m = choose|m: int| 0 <= m < p1.len() && p1[m] == t;
                        if m < p0.len() {
                            assert(p0[m] == t);
                        }
                    }
                    if t == venues@[k as int].city@ {
                        assert(p1[k as int] == t);
                    }
                }
            }
            k += 1;
        }
        proof {
            assert(venues@.take(venues@.len() as int) =~= venues@);
            lemma_city_order();
            lemma_listing(strs(out@), city_pool(venues@), city_order());
        }
        out
    }

    /// The venues of the saved city, in catalog order; none without a city.
    pub fn visible_venues(&self) -> (r: Vec<Venue>)
        ensures
            r@ == visible_venues_of(self@),
    {
        let city = match &self.preferences.city {
            Some(c) => c.as_str(),
            None => {
                return Vec::new();
            },
        };
        let venues = &self.catalog.venues;
        let mut out: Vec<Venue> = Vec::new();
        let mut k: usize = 0;
        while k < venues.len()
            invariant
                k <= venues.len(),
                out@ == venues_in(venues@.take(k as int), city@),
            decreases venues.len() - k,
        {
            proof {
                assert(venues@.take(k + 1).drop_last() =~= venues@.take(k as int));
                assert(venues@.take(k + 1).last() == venues@[k as int]);
            }
            if compare_text(venues[k].city.as_str(), city) == 0 {
                out.push(venues[k].copied());
            }
            k += 1;
        }
        proof {
            assert(venues@.take(venues@.len() as int) =~= venues@);
        }
        out
    }

    /// Whether the movie has a showtime in the saved city; every movie does
    /// when no city is saved.
    fn movie_visible_in_city(&self, movie: &Movie) -> (r: bool)
        ensures
            r == movie_in_city(self.catalog, *movie, self.preferences.city),
    {
        let city = match &self.preferences.city {
            Some(c) => c.as_str(),
            None => {
                return true;
            },
        };
        let showtimes = &self.catalog.showtimes;
        let mut k: usize = 0;
        while k < showtimes.len()
            invariant
                k <= showtimes.len(),
                showtimes == &self.catalog.showtimes,
                self.preferences.city is Some && self.preferences.city.unwrap()@ == city@,
                forall|m: int|
                    0 <= m < k ==> !((#[trigger] showtimes@[m]).movie_id@ == movie.id@
                        && city_of_venue(self.catalog.venues@, showtimes@[m].venue_id@) == Some(
                        city@,
                    )),
            decreases showtimes.len() - k,
        {
            if compare_text(showtimes[k].movie_id.as_str(), movie.id.as_str()) == 0 {
                match self.city_for_venue(showtimes[k].venue_id.as_str()) {
                    Some(c) => {
                        if compare_text(c, city) == 0 {
                            proof {
                                assert(self.catalog.showtimes@[k as int].movie_id@ == movie.id@);
                            }
                            return true;
                        }
                    },
                    None => {},
                }
            }
            k += 1;
        }
        false
    }

    /// The movies whose title matches the query, with a showtime in the
    /// saved city, in catalog order.
    pub fn visible_movies(&self) -> (r: Vec<Movie>)
        ensures
            r@ == visible_movies_of(self@),
    {
        let q = text_lowercase(self.query.as_str());
        let movies = &self.catalog.movies;
        let mut out: Vec<Movie> = Vec::new();
        let mut k: usize = 0;
        while k < movies.len()
            invariant
                k <= movies.len(),
                q@ == unicode_lowercase_text(self.query@),
                out@ == movies_shown(
                    self.catalog,
                    movies@.take(k as int),
                    q@,
                    self.preferences.city,
                ),
            decreases movies.len() - k,
        {
            proof {
                assert(movies@.take(k + 1).drop_last() =~= movies@.take(k as int));
                assert(movies@.take(k + 1).last() == movies@[k as int]);
            }
            let lowered_title = text_lowercase(movies[k].title.as_str());
            let title_ok = lowered_title_matches_query(lowered_title.as_str(), q.as_str());
            if title_ok && self.movie_visible_in_city(&movies[k]) {
                out.push(movies[k].copied());
            }
            k += 1;
        }
        proof {
            assert(movies@.take(movies@.len() as int) =~= movies@);
        }
        out
    }

    /// Whether the showtime is of the selected movie and in the saved city.
    fn showtime_selected(&self, st: &Showtime) -> (r: bool)
        ensures
            r == is_selected(self@, *st),
    {
        let id = match &self.selected_movie_id {
            Some(id) => id.as_str(),
            None => {
                return false;
            },
        };
        if compare_text(st.movie_id.as_str(), id) != 0 {
            return false;
        }
        match &self.preferences.city {
            Some(c) => match self.city_for_venue(st.venue_id.as_str()) {
                Some(vc) => compare_text(vc, c.as_str()) == 0,
                None => false,
            },
            None => true,
        }
    }

    /// Whether the showtime passes the date and venue selections.
    fn showtime_passes_filters(&self, st: &Showtime) -> (r: bool)
        ensures
            r == passes_filters(self@, *st),
    {
        proof {
            lemma_texts_contains(self.selected_filter_dates@);
            lemma_texts_contains(self.selected_filter_venues@);
        }
        let date_ok = self.selected_filter_dates.len() == 0 || contains_text_item(
            &self.selected_filter_dates,
            date_label(st.starts_at).as_str(),
        );
        date_ok && (self.selected_filter_venues.len() == 0 || contains_text_item(
            &self.selected_filter_venues,
            st.venue_id.as_str(),
        ))
    }

    /// Copies of the showtimes of the selected movie in the saved city, in
    /// catalog order; none without a selected movie.
    pub fn selected_showtimes(&self) -> (r: Vec<Showtime>)
        ensures
            same_showtimes(r@, selected_of(self@)),
    {
        let showtimes = &self.catalog.showtimes;
        let ghost f = |st: Showtime| is_selected(self@, st);
        let mut out: Vec<Showtime> = Vec::new();
        let mut k: usize = 0;
        while k < showtimes.len()
            invariant
                k <= showtimes.len(),
                f == (|st: Showtime| is_selected(self@, st)),
                same_showtimes(out@, keep(showtimes@.take(k as int), f)),
            decreases showtimes.len() - k,
        {
            proof {
                assert(showtimes@.take(k + 1).drop_last() =~= showtimes@.take(k as int));
                assert(showtimes@.take(k + 1).last() == showtimes@[k as int]);
            }
            if self.showtime_selected(&showtimes[k]) {
                out.push(showtimes[k].copied());
            }
            k += 1;
        }
        proof {
            assert(showtimes@.take(showtimes@.len() as int) =~= showtimes@);
        }
        out
    }

    /// Copies of the selected showtimes that pass the filters.
    fn filtered_showtimes(&self) -> (r: Vec<Showtime>)
        ensures
            same_showtimes(r@, filtered_of(self@)),
    {
        let showtimes = &self.catalog.showtimes;
        let ghost f = |st: Showtime| is_selected(self@, st) && passes_filters(self@, st);
        let mut out: Vec<Showtime> = Vec::new();
        let mut k: usize = 0;
        while k < showtimes.len()
            invariant
                k <= showtimes.len(),
                f == (|st: Showtime| is_selected(self@, st) && passes_filters(self@, st)),
                same_showtimes(out@, keep(showtimes@.take(k as int), f)),
            decreases showtimes.len() - k,
        {
            proof {
                assert(showtimes@.take(k + 1).drop_last() =~= showtimes@.take(k as int));
                assert(showtimes@.take(k + 1).last() == showtimes@[k as int]);
            }
            if self.showtime_selected(&showtimes[k]) && self.showtime_passes_filters(&showtimes[k]) {
                out.push(showtimes[k].copied());
            }
            k += 1;
        }
        proof {
            assert(showtimes@.take(showtimes@.len() as int) =~= showtimes@);
        }
        out
    }
}

/// The catalog's showtimes of other movies than `id`, in order.
pub open spec fn other_movies(sts: Seq<Showtime>, id: Seq<char>) -> Seq<Showtime> {
    keep(sts, |st: Showtime| st.movie_id@ != id)
}

/// Loading the selected movie's showtimes: they replace the catalog's
/// showtimes of that movie (appended after the others), the filters are
/// rebuilt, the ranking recomputed and the results shown. Without a
/// selected movie nothing changes.
pub open spec fn finished_loading(s: AppView, loaded: Seq<Showtime>, t: AppView) -> bool {
    match s.selected_movie_id {
        Some(id) => {
            &&& t.catalog.movies == s.catalog.movies
            &&& t.catalog.venues == s.catalog.venues
            &&& t.catalog.showtimes@ == other_movies(s.catalog.showtimes@, id) + loaded
            &&& t == AppView {
                recommendations: t.recommendations,
                result_index: 0,
                screen: Screen::Results,
                ..with_filters(AppView { catalog: t.catalog, ..s })
            }
            &&& ranks(t, t.recommendations)
        },
        None => t == s,
    }
}

impl App {
    /// Rebuilds the filters from the selected showtimes, all selected.
    fn populate_filters(&mut self)
        requires
            valid(old(self)@),
        ensures
            final(self)@ == with_filters(old(self)@),
            valid(final(self)@),
    {
        let ghost s = self@;
        let sel = self.selected_showtimes();
        let ghost sel_spec = selected_of(s);
        let mut dates: Vec<String> = Vec::new();
        let mut venues: Vec<String> = Vec::new();
        let mut k: usize = 0;
        proof {
            assert(texts(dates@) =~= date_pool(sel_spec.take(0)));
            assert(texts(venues@) =~= venue_pool(sel_spec.take(0)));
        }
        while k < sel.len()
            invariant
                k <= sel.len(),
                same_showtimes(sel@, sel_spec),
                texts(dates@) == date_pool(sel_spec.take(k as int)),
                texts(venues@) == venue_pool(sel_spec.take(k as int)),
            decreases sel.len() - k,
        {
            let d = date_label(sel[k].starts_at);
            let ghost d0 = texts(dates@);
            let ghost v0 = texts(venues@);
            dates.push(d);
            venues.push(sel[k].venue_id.clone());
            proof {
                assert(same_showtime(sel@[k as int], sel_spec[k as int]));
                assert(texts(dates@) =~= d0.push(start_date(sel_spec[k as int])));
                assert(texts(venues@) =~= v0.push(sel_spec[k as int].venue_id@));
                assert(date_pool(sel_spec.take(k + 1)) =~= date_pool(sel_spec.take(k as int)).push(
                    start_date(sel_spec[k as int]),
                ));
                assert(venue_pool(sel_spec.take(k + 1)) =~= venue_pool(sel_spec.take(k as int)).push(
                    sel_spec[k as int].venue_id@,
                ));
            }
            k += 1;
        }
        proof {
            assert(sel_spec.take(sel_spec.len() as int) =~= sel_spec);
        }
        let fd = sorted(&dates);
        let fv = sorted(&venues);
        proof {
            lemma_sorted_lists(fd@, dates@);
            lemma_sorted_lists(fv@, venues@);
            lemma_text_order();
            lemma_listing(texts(fd@), date_pool(sel_spec), text_order());
            lemma_listing(texts(fv@), venue_pool(sel_spec), text_order());
        }
        self.selected_filter_dates = copy_texts(&fd);
        self.selected_filter_venues = copy_texts(&fv);
        self.filter_dates = fd;
        self.filter_venues = fv;
        self.filter_cursor = 0;
        proof {
            assert(self@ =~= with_filters(s));
        }
    }

    /// Ranks the filtered showtimes again, at most three, and moves the
    /// result cursor to the first.
    pub fn recompute_recommendations(&mut self)
        requires
            valid(old(self)@),
        ensures
            final(self)@ == (AppView {
                recommendations: final(self)@.recommendations,
                result_index: 0,
                ..old(self)@
            }),
            ranks(old(self)@, final(self)@.recommendations),
            valid(final(self)@),
    {
        let ghost s = self@;
        let showtimes = self.filtered_showtimes();
        self.recommendations = recommend(&showtimes, &self.preferences, 3);
        self.result_index = 0;
        proof {
            assert(same_showtimes(showtimes@, filtered_of(s)) && recommended(
                showtimes@,
                s.preferences,
                3,
                self@.recommendations,
            ));
            assert(self@ =~= AppView { recommendations: self@.recommendations, result_index: 0, ..s });
        }
    }

    /// Takes in the loaded showtimes of the selected movie and shows the
    /// ranked results.
    pub fn finish_loading_showtimes(&mut self, showtimes: Vec<Showtime>)
        requires
            old(self).wf(),
        ensures
            final(self).wf(),
            finished_loading(old(self)@, showtimes@, final(self)@),
    {
        let ghost s = self@;
        let id = match &self.selected_movie_id {
            Some(id) => id.clone(),
            None => {
                return;
            },
        };
        let mut old_showtimes: Vec<Showtime> = Vec::new();
        std::mem::swap(&mut old_showtimes, &mut self.catalog.showtimes);
        let ghost all = old_showtimes@;
        let ghost f = |st: Showtime| st.movie_id@ != id@;
        let mut kept: Vec<Showtime> = Vec::new();
        for st in it: old_showtimes.into_iter()
            invariant
                f == (|st: Showtime| st.movie_id@ != id@),
                it.seq() == all,
                kept@ == keep(all.take(it.index() as int), f),
        {
            proof {
                assert(all.take(it.index() + 1).drop_last() =~= all.take(it.index() as int));
                assert(all.take(it.index() + 1).last() == st);
            }
            if compare_text(st.movie_id.as_str(), id.as_str()) != 0 {
                kept.push(st);
            }
        }
        proof {
            assert(all.take(all.len() as int) =~= all);
        }
        let mut loaded = showtimes;
        kept.append(&mut loaded);
        self.catalog.showtimes = kept;
        let ghost s1 = self@;
        proof {
            assert(s1 =~= AppView { catalog: s1.catalog, ..s });
        }
        self.populate_filters();
        let ghost s2 = self@;
        self.recompute_recommendations();
        self.screen = Screen::Results;
        proof {
            assert(filtered_of(s2) == filtered_of(self@)) by {
                assert(self@.catalog == s2.catalog);
                assert(self@.selected_filter_dates == s2.selected_filter_dates);
                assert(self@.selected_filter_venues == s2.selected_filter_venues);
                assert((|st: Showtime| is_selected(s2, st) && passes_filters(s2, st)) =~= (|st: Showtime|
                    is_selected(self@, st) && passes_filters(self@, st)));
            }
            assert(self@ =~= AppView {
                recommendations: self@.recommendations,
                result_index: 0,
                screen: Screen::Results,
                ..with_filters(AppView { catalog: self@.catalog, ..s })
            });
        }
    }

    /// Loading failed: back to the movies.
    pub fn loading_failed(&mut self)
        ensures
            final(self)@ == (AppView { screen: Screen::Movies, ..old(self)@ }),
    {
        self.screen = Screen::Movies;
        proof {
            assert(self@ =~= AppView { screen: Screen::Movies, ..old(self)@ });
        }
    }

    /// Selects a movie by id, as choosing it on the movies screen does.
    pub fn select_movie(&mut self, movie_id: String)
        ensures
            final(self)@ == (AppView { selected_movie_id: Some(movie_id@), ..old(self)@ }),
    {
        self.selected_movie_id = Some(movie_id);
        proof {
            assert(self@ =~= AppView { selected_movie_id: Some(movie_id@), ..old(self)@ });
        }
    }

    /// Replaces the venue selection of the filters: the given venues, each
    /// once, in increasing order.
    pub fn set_selected_filter_venues(&mut self, venues: Vec<String>)
        requires
            old(self).wf(),
        ensures
            final(self).wf(),
            final(self)@ == (AppView {
                selected_filter_venues: listing(texts(venues@), text_order()),
                ..old(self)@
            }),
    {
        let chosen = sorted(&venues);
        proof {
            lemma_sorted_lists(chosen@, venues@);
            lemma_text_order();
            lemma_listing(texts(chosen@), texts(venues@), text_order());
        }
        self.selected_filter_venues = chosen;
        proof {
            assert(self@ =~= AppView {
                selected_filter_venues: listing(texts(venues@), text_order()),
                ..old(self)@
            });
        }
    }
}

/// The position of the first text of `list` equal to `t`.
fn position_of(list: &Vec<&str>, t: &str) -> (r: Option<usize>)
    ensures
        match r {
            Some(k) => first_index(strs(list@), t@) == Some(k as int) && k < list.len(),
            None => first_index(strs(list@), t@) is None,
        },
{
    let ghost l = strs(list@);
    let mut k: usize = 0;
    proof {
        assert(l.skip(0) =~= l);
    }
    while k < list.len()
        invariant
            k <= list.len(),
            l == strs(list@),
            first_index(l, t@) == match first_index(l.skip(k as int), t@) {
                Some(m) => Some(m + k),
                None => None,
            },
        decreases list.len() - k,
    {
        proof {
            assert(l.skip(k as int)[0] == list@[k as int]@);
            assert(l.skip(k as int).drop_first() =~= l.skip(k + 1));
        }
        if compare_text(list[k], t) == 0 {
            return Some(k);
        }
        k += 1;
    }
    proof {
        assert(l.skip(k as int) =~= Seq::empty());
    }
    None
}

impl App {
    /// Whether the saved city has a venue.
    fn saved_city_available(&self) -> (r: bool)
        ensures
            r == saved_city_available(self@),
    {
        let city = match &self.preferences.city {
            Some(c) => c.as_str(),
            None => {
                return false;
            },
        };
        let venues = &self.catalog.venues;
        let ghost pool = city_pool(venues@);
        let mut k: usize = 0;
        while k < venues.len()
            invariant
                k <= venues.len(),
                venues == &self.catalog.venues,
                self.preferences.city is Some && self.preferences.city.unwrap()@ == city@,
                pool == city_pool(venues@),
                forall|m: int| 0 <= m < k ==> pool[m] != city@,
            decreases venues.len() - k,
        {
            if compare_text(venues[k].city.as_str(), city) == 0 {
                proof {
                    assert(pool[k as int] == city@);
                    assert(pool.contains(city@));
                }
                return true;
            }
            k += 1;
        }
        proof {
            if pool.contains(city@) {
                let m = choose|m: int| 0 <= m < pool.len() && pool[m] == city@;
                assert(pool[m] != city@);
            }
        }
        false
    }

    /// Toggles the date or venue under the filter cursor (see
    /// `filter_toggle`).
    fn toggle_filter(&mut self)
        requires
            valid(old(self)@),
        ensures
            filter_toggle(old(self)@, final(self)@),
            valid(final(self)@),
    {
        let ghost s = self@;
        let c = self.filter_cursor;
        let nd = self.filter_dates.len();
        if c < nd {
            let date = self.filter_dates[c].clone();
            proof {
                assert(s.filter_dates[c as int] == date@);
            }
            toggle_text(&mut self.selected_filter_dates, date.as_str());
        } else if c - nd < self.filter_venues.len() {
            let venue = self.filter_venues[c - nd].clone();
            proof {
                assert(s.filter_venues[c - nd] == venue@);
            }
            toggle_text(&mut self.selected_filter_venues, venue.as_str());
        }
        proof {
            assert(self@ =~= AppView {
                selected_filter_dates: self@.selected_filter_dates,
                selected_filter_venues: self@.selected_filter_venues,
                ..s
            });
        }
    }

    fn apply_welcome(&mut self, action: Action) -> (r: Effect)
        requires
            valid(old(self)@),
            old(self)@.screen == Screen::Welcome,
            action != Action::Quit,
        ensures
            step(old(self)@, action, final(self)@, r),
            valid(final(self)@),
    {
        let ghost s = self@;
        if action == Action::Confirm {
            if !self.saved_city_available() {
                let cities = self.available_cities();
                let start = match &self.preferences.city {
                    Some(c) => match position_of(&cities, c.as_str()) {
                        Some(k) => k,
                        None => 0,
                    },
                    None => 0,
                };
                self.city_index = start;
                self.screen = Screen::CitySetup;
                proof {
                    assert(self@ =~= AppView { screen: Screen::CitySetup, city_index: city_start(s), ..s });
                }
            } else if !self.preferences.onboarding_complete {
                self.venue_index = 0;
                self.venue_setup_caller = Screen::CitySetup;
                self.screen = Screen::VenueSetup;
                proof {
                    assert(self@ =~= to_venue_setup(s, Screen::CitySetup));
                }
            } else {
                self.screen = Screen::Movies;
                proof {
                    assert(self@ =~= AppView { screen: Screen::Movies, ..s });
                }
            }
        }
        Effect::Nothing
    }

    fn apply_city_setup(&mut self, action: Action) -> (r: Effect)
        requires
            valid(old(self)@),
            old(self)@.screen == Screen::CitySetup,
            action != Action::Quit,
        ensures
            step(old(self)@, action, final(self)@, r),
            valid(final(self)@),
    {
        let ghost s = self@;
        match action {
            Action::Up => {
                let count = self.available_cities().len().saturating_add(1);
                self.city_index = if self.city_index == 0 {
                    count - 1
                } else {
                    self.city_index - 1
                };
                proof {
                    assert(self@ =~= AppView {
                        city_index: wrap_up(s.city_index, succ_sat(cities_of(s).len() as int)),
                        ..s
                    });
                }
                Effect::Nothing
            },
            Action::Down => {
                let count = self.available_cities().len().saturating_add(1);
                self.city_index = (self.city_index + 1) % count;
                proof {
                    assert(self@ =~= AppView {
                        city_index: wrap_down(s.city_index, succ_sat(cities_of(s).len() as int)),
                        ..s
                    });
                }
                Effect::Nothing
            },
            Action::Confirm => {
                let cities = self.available_cities();
                let n = cities.len();
                let picked = if self.city_index < n {
                    Some(owned(cities[self.city_index]))
                } else {
                    None
                };
                proof {
                    if self.city_index < n {
                        assert(cities_of(s)[self.city_index as int] == cities@[self.city_index as int]@);
                    }
                }
                match picked {
                    Some(city) => {
                        self.preferences.city = Some(city);
                        self.venue_index = 0;
                        proof {
                            assert(self@ =~= AppView { preferences: self@.preferences, venue_index: 0, ..s });
                        }
                        Effect::SavePreferences
                    },
                    None => {
                        if self.city_index == n {
                            if self.preferences.onboarding_complete {
                                self.screen = Screen::Movies;
                                proof {
                                    assert(self@ =~= AppView { screen: Screen::Movies, ..s });
                                }
                            } else {
                                self.venue_setup_caller = Screen::CitySetup;
                                self.screen = Screen::VenueSetup;
                                proof {
                                    assert(self@ =~= AppView {
                                        screen: Screen::VenueSetup,
                                        venue_setup_caller: Screen::CitySetup,
                                        ..s
                                    });
                                }
                            }
                            Effect::SavePreferences
                        } else {
                            Effect::Nothing
                        }
                    },
                }
            },
            Action::Back => {
                self.screen = Screen::Welcome;
                proof {
                    assert(self@ =~= AppView { screen: Screen::Welcome, ..s });
                }
                Effect::Nothing
            },
            _ => Effect::Nothing,
        }
    }

    fn apply_venue_setup(&mut self, action: Action) -> (r: Effect)
        requires
            valid(old(self)@),
            old(self)@.screen == Screen::VenueSetup,
            action != Action::Quit,
        ensures
            step(old(self)@, action, final(self)@, r),
            valid(final(self)@),
    {
        let ghost s = self@;
        match action {
            Action::Up => {
                let count = self.visible_venues().len().saturating_add(1);
                self.venue_index = if self.venue_index == 0 {
                    count - 1
                } else {
                    self.venue_index - 1
                };
                proof {
                    assert(self@ =~= AppView {
                        venue_index: wrap_up(s.venue_index, succ_sat(visible_venues_of(s).len() as int)),
                        ..s
                    });
                }
                Effect::Nothing
            },
            Action::Down => {
                let count = self.visible_venues().len().saturating_add(1);
                self.venue_index = (self.venue_index + 1) % count;
                proof {
                    assert(self@ =~= AppView {
                        venue_index: wrap_down(s.venue_index, succ_sat(visible_venues_of(s).len() as int)),
                        ..s
                    });
                }
                Effect::Nothing
            },
            Action::Toggle | Action::Confirm => {
                let venues = self.visible_venues();
                if self.venue_index < venues.len() {
                    toggle_text(&mut self.preferences.favorite_venue_ids, venues[self.venue_index].id.as_str());
                    proof {
                        assert(self@ =~= AppView { preferences: self@.preferences, ..s });
                    }
                    Effect::Nothing
                } else if action == Action::Confirm && self.venue_index == venues.len() {
                    self.preferences.onboarding_complete = true;
                    self.screen = Screen::Movies;
                    proof {
                        assert(self@ =~= AppView {
                            preferences: Preferences { onboarding_complete: true, ..s.preferences },
                            screen: Screen::Movies,
                            ..s
                        });
                    }
                    Effect::SavePreferences
                } else {
                    Effect::Nothing
                }
            },
            Action::Back => {
                self.screen = self.venue_setup_caller;
                proof {
                    assert(self@ =~= AppView { screen: s.venue_setup_caller, ..s });
                }
                Effect::Nothing
            },
            _ => Effect::Nothing,
        }
    }

    /// Opens the venue setup, to return to `caller`.
    fn open_venue_setup(&mut self, caller: Screen)
        requires
            valid(old(self)@),
        ensures
            final(self)@ == to_venue_setup(old(self)@, caller),
            valid(final(self)@),
    {
        self.venue_index = 0;
        self.venue_setup_caller = caller;
        self.screen = Screen::VenueSetup;
        proof {
            assert(self@ =~= to_venue_setup(old(self)@, caller));
        }
    }

    fn apply_movies(&mut self, action: Action) -> (r: Effect)
        requires
            valid(old(self)@),
            old(self)@.screen == Screen::Movies,
            action != Action::Quit,
        ensures
            step(old(self)@, action, final(self)@, r),
            valid(final(self)@),
    {
        let ghost s = self@;
        match action {
            Action::Character(c) => {
                push_char(&mut self.query, c);
                self.movie_index = 0;
                proof {
                    assert(self@ =~= AppView { query: s.query.push(c), movie_index: 0, ..s });
                }
                Effect::Nothing
            },
            Action::Backspace => {
                let mut cs = chars_of(self.query.as_str());
                if cs.len() > 0 {
                    cs.pop();
                    proof {
                        assert(cs@ =~= s.query.drop_last());
                    }
                }
                self.query = string_of(cs.as_slice());
                self.movie_index = 0;
                proof {
                    assert(self@ =~= AppView {
                        query: if s.query.len() > 0 {
                            s.query.drop_last()
                        } else {
                            s.query
                        },
                        movie_index: 0,
                        ..s
                    });
                }
                Effect::Nothing
            },
            Action::Up => {
                let count = self.visible_movies().len();
                if count > 0 {
                    self.movie_index = if self.movie_index == 0 {
                        count - 1
                    } else {
                        self.movie_index - 1
                    };
                    proof {
                        assert(self@ =~= AppView {
                            movie_index: wrap_up(s.movie_index, count as int),
                            ..s
                        });
                    }
                }
                Effect::Nothing
            },
            Action::Down => {
                let count = self.visible_movies().len();
                if count > 0 {
                    self.movie_index = (self.movie_index + 1) % count;
                    proof {
                        assert(self@ =~= AppView {
                            movie_index: wrap_down(s.movie_index, count as int),
                            ..s
                        });
                    }
                }
                Effect::Nothing
            },
            Action::Confirm => {
                let movies = self.visible_movies();
                if self.movie_index < movies.len() {
                    let movie_id = movies[self.movie_index].id.clone();
                    self.selected_movie_id = Some(movie_id.clone());
                    self.screen = Screen::Loading;
                    proof {
                        assert(self@ =~= AppView {
                            selected_movie_id: Some(movies@[s.movie_index].id@),
                            screen: Screen::Loading,
                            ..s
                        });
                    }
                    Effect::FetchSeatMaps(movie_id)
                } else {
                    Effect::Nothing
                }
            },
            Action::EditVenues | Action::Back => {
                self.open_venue_setup(Screen::Movies);
                Effect::Nothing
            },
            _ => Effect::Nothing,
        }
    }

    fn apply_results(&mut self, action: Action) -> (r: Effect)
        requires
            valid(old(self)@),
            old(self)@.screen == Screen::Results,
            action != Action::Quit,
        ensures
            step(old(self)@, action, final(self)@, r),
            valid(final(self)@),
    {
        let ghost s = self@;
        let count = self.recommendations.len();
        match action {
            Action::Up => {
                if count > 0 {
                    self.result_index = if self.result_index == 0 {
                        count - 1
                    } else {
                        self.result_index - 1
                    };
                    proof {
                        assert(self@ =~= AppView {
                            result_index: wrap_up(s.result_index, count as int),
                            ..s
                        });
                    }
                }
                Effect::Nothing
            },
            Action::Down => {
                if count > 0 {
                    self.result_index = (self.result_index + 1) % count;
                    proof {
                        assert(self@ =~= AppView {
                            result_index: wrap_down(s.result_index, count as int),
                            ..s
                        });
                    }
                }
                Effect::Nothing
            },
            Action::Confirm => {
                if self.result_index < count {
                    self.screen = Screen::SeatMap;
                    proof {
                        assert(self@ =~= AppView { screen: Screen::SeatMap, ..s });
                    }
                }
                Effect::Nothing
            },
            Action::Back => {
                self.screen = Screen::Movies;
                proof {
                    assert(self@ =~= AppView { screen: Screen::Movies, ..s });
                }
                Effect::Nothing
            },
            Action::EditVenues => {
                self.open_venue_setup(Screen::Results);
                Effect::Nothing
            },
            Action::OpenFilters => {
                self.populate_filters();
                self.screen = Screen::Filters;
                proof {
                    assert(self@ =~= AppView { screen: Screen::Filters, ..with_filters(s) });
                }
                Effect::Nothing
            },
            _ => Effect::Nothing,
        }
    }

    fn apply_filters(&mut self, action: Action) -> (r: Effect)
        requires
            valid(old(self)@),
            old(self)@.screen == Screen::Filters,
            action != Action::Quit,
        ensures
            step(old(self)@, action, final(self)@, r),
            valid(final(self)@),
    {
        let ghost s = self@;
        match action {
            Action::Up => {
                let count = self.filter_dates.len().saturating_add(self.filter_venues.len()).saturating_add(1);
                self.filter_cursor = if self.filter_cursor == 0 {
                    count - 1
                } else {
                    self.filter_cursor - 1
                };
                proof {
                    assert(self@ =~= AppView {
                        filter_cursor: wrap_up(s.filter_cursor, filter_count(s)),
                        ..s
                    });
                }
                Effect::Nothing
            },
            Action::Down => {
                let count = self.filter_dates.len().saturating_add(self.filter_venues.len()).saturating_add(1);
                self.filter_cursor = (self.filter_cursor + 1) % count;
                proof {
                    assert(self@ =~= AppView {
                        filter_cursor: wrap_down(s.filter_cursor, filter_count(s)),
                        ..s
                    });
                }
                Effect::Nothing
            },
            Action::Toggle => {
                self.toggle_filter();
                Effect::Nothing
            },
            Action::Confirm => {
                if self.filter_on_apply() {
                    self.recompute_recommendations();
                    self.screen = Screen::Results;
                    proof {
                        assert(self@ =~= AppView {
                            recommendations: self@.recommendations,
                            result_index: 0,
                            screen: Screen::Results,
                            ..s
                        });
                    }
                } else {
                    self.toggle_filter();
                }
                Effect::Nothing
            },
            Action::Back => {
                self.screen = Screen::Results;
                proof {
                    assert(self@ =~= AppView { screen: Screen::Results, ..s });
                }
                Effect::Nothing
            },
            _ => Effect::Nothing,
        }
    }

    /// Applies a key action and returns what the caller must do next.
    pub fn apply(&mut self, action: Action) -> (r: Effect)
        requires
            old(self).wf(),
        ensures
            final(self).wf(),
            step(old(self)@, action, final(self)@, r),
    {
        let ghost s = self@;
        if action == Action::Quit {
            self.should_quit = true;
            proof {
                assert(self@ =~= AppView { should_quit: true, ..s });
            }
            return Effect::Nothing;
        }
        match self.screen {
            Screen::Welcome => self.apply_welcome(action),
            Screen::CitySetup => self.apply_city_setup(action),
            Screen::VenueSetup => self.apply_venue_setup(action),
            Screen::Movies => self.apply_movies(action),
            Screen::Results => self.apply_results(action),
            Screen::Filters => self.apply_filters(action),
            Screen::Loading => {
                if action == Action::Back {
                    self.screen = Screen::Movies;
                    proof {
                        assert(self@ =~= AppView { screen: Screen::Movies, ..s });
                    }
                }
                Effect::Nothing
            },
            Screen::SeatMap => {
                if action == Action::Back {
                    self.screen = Screen::Results;
                    proof {
                        assert(self@ =~= AppView { screen: Screen::Results, ..s });
                    }
                }
                Effect::Nothing
            },
        }
    }

    /// Whether the city cursor is on the continue button.
    pub fn city_setup_on_continue(&self) -> (r: bool)
        ensures
            r == (self@.city_index == cities_of(self@).len()),
    {
        self.city_index == self.available_cities().len()
    }

    /// Whether the venue cursor is on the continue button.
    pub fn venue_setup_on_continue(&self) -> (r: bool)
        ensures
            r == (self@.venue_index == visible_venues_of(self@).len()),
    {
        self.venue_index == self.visible_venues().len()
    }
}

// ---------------------------------------------------------------------------
// Laws.
// ---------------------------------------------------------------------------
proof fn lemma_keep_members(sts: Seq<Showtime>, f: spec_fn(Showtime) -> bool)
    ensures
        forall|k: int|
            0 <= k < keep(sts, f).len() ==> f(#[trigger] keep(sts, f)[k]) && sts.contains(keep(sts, f)[k]),
    decreases sts.len(),
{
    if sts.len() > 0 {
        lemma_keep_members(sts.drop_last(), f);
        assert forall|k: int| 0 <= k < keep(sts, f).len() implies f(#[trigger] keep(sts, f)[k])
            && sts.contains(keep(sts, f)[k]) by {
            let x = keep(sts, f)[k];
            if f(sts.last()) && k == keep(sts, f).len() - 1 {
                assert(sts[sts.len() - 1] == x);
            } else {
                assert(x == keep(sts.drop_last(), f)[k]);
                let m = choose|m: int| 0 <= m < sts.drop_last().len() && sts.drop_last()[m] == x;
                assert(sts[m] == x);
            }
        }
    }
}

/// The results are at most three, and each is for a showtime of the
/// selected movie, at a venue of the saved city, that passes the date and
/// venue filters and that the preferences accept. Favorite venues only
/// raise a score: they restrict nothing.
pub proof fn lemma_results_respect_selection(s: AppView, r: Seq<Recommendation>)
    requires
        ranks(s, r),
    ensures
        r.len() <= 3,
        forall|k: int|
            0 <= k < r.len() ==> is_selected(s, (#[trigger] r[k]).showtime) && passes_filters(
                s,
                r[k].showtime,
            ) && acceptable(r[k].showtime, s.preferences),
{
    let c = choose|c: Seq<Showtime>| #[trigger] same_showtimes(c, filtered_of(s)) && recommended(c, s.preferences, 3, r);
    let p = s.preferences;
    if p.party_size != 0 {
        let a = choose|a: Seq<Recommendation>| #[trigger] analyses(c, p, a) && r == ranked(a, 3);
        lemma_recommendations_are_accepted_analyses(c, p, a, 3);
        let f = |st: Showtime| is_selected(s, st) && passes_filters(s, st);
        lemma_keep_members(s.catalog.showtimes@, f);
        assert forall|k: int| 0 <= k < r.len() implies is_selected(s, (#[trigger] r[k]).showtime)
            && passes_filters(s, r[k].showtime) && acceptable(r[k].showtime, p) by {
            assert(r[k] == ranked(a, 3)[k]);
            let m = choose|m: int| 0 <= m < c.len() && acceptable(c[m], p) && analysis_of(c[m], p, #[trigger] ranked(a, 3)[k]);
            let v = choose|v: ViewingAssessment| assessed(c[m], p.party_size as int, Some(v)) && #[trigger] presents(r[k], c[m], p, v);
            assert(same_showtime(r[k].showtime, c[m]));
            assert(same_showtime(c[m], filtered_of(s)[m]));
            assert(f(filtered_of(s)[m]));
        }
    }
}

/// Where the cursor of a screen is.
pub open spec fn cursor_of(s: AppView) -> int {
    match s.screen {
        Screen::CitySetup => s.city_index,
        Screen::VenueSetup => s.venue_index,
        Screen::Movies => s.movie_index,
        Screen::Results => s.result_index,
        Screen::Filters => s.filter_cursor,
        _ => 0,
    }
}

/// How many items the cursor of a screen moves over.
pub open spec fn cursor_count(s: AppView) -> int {
    match s.screen {
        Screen::CitySetup => succ_sat(cities_of(s).len() as int),
        Screen::VenueSetup => succ_sat(visible_venues_of(s).len() as int),
        Screen::Movies => visible_movies_of(s).len() as int,
        Screen::Results => s.recommendations.len() as int,
        Screen::Filters => filter_count(s),
        _ => 0,
    }
}

proof fn lemma_wrap_round_trips(i: int, n: int)
    requires
        0 <= i < n,
    ensures
        wrap_down(wrap_up(i, n), n) == i,
        wrap_up(wrap_down(i, n), n) == i,
{
    if i + 1 < n {
        assert((i + 1) % n == i + 1) by (nonlinear_arith)
            requires
                0 <= i + 1 < n,
        ;
    } else {
        assert((i + 1) % n == 0) by (nonlinear_arith)
            requires
                i + 1 == n,
                n > 0,
        ;
    }
    if i == 0 {
        assert(n % n == 0) by (nonlinear_arith)
            requires
                n > 0,
        ;
    } else {
        assert(i % n == i) by (nonlinear_arith)
            requires
                0 <= i < n,
        ;
    }
}

/// On a screen with a cursor on an item, moving up and then down, or down
/// and then up, leaves the state as it was.
pub proof fn lemma_cursor_round_trip(s: AppView, first: Action, t: AppView, u: AppView, e1: Effect, e2: Effect)
    requires
        s.screen == Screen::CitySetup || s.screen == Screen::VenueSetup || s.screen == Screen::Movies
            || s.screen == Screen::Results || s.screen == Screen::Filters,
        0 <= cursor_of(s) < cursor_count(s),
        first == Action::Up || first == Action::Down,
        step(s, first, t, e1),
        step(t, (if first == Action::Up { Action::Down } else { Action::Up }), u, e2),
    ensures
        u == s,
        e1 == Effect::Nothing,
        e2 == Effect::Nothing,
{
    lemma_wrap_round_trips(cursor_of(s), cursor_count(s));
    assert(u =~= s);
}

/// Toggling the favorite under the venue cursor twice leaves the favorites
/// (as a set of ids) and everything else as they were.
pub proof fn lemma_favorite_toggle_twice(s: AppView, t: AppView, u: AppView, e1: Effect, e2: Effect)
    requires
        valid(s),
        s.screen == Screen::VenueSetup,
        step(s, Action::Toggle, t, e1),
        step(t, Action::Toggle, u, e2),
    ensures
        u == (AppView { preferences: u.preferences, ..s }),
        u.preferences == (Preferences { favorite_venue_ids: u.preferences.favorite_venue_ids, ..s.preferences }),
        texts(u.preferences.favorite_venue_ids@) == texts(s.preferences.favorite_venue_ids@),
{
    let a = texts(s.preferences.favorite_venue_ids@);
    let c = texts(u.preferences.favorite_venue_ids@);
    if s.venue_index < visible_venues_of(s).len() {
        let b = texts(t.preferences.favorite_venue_ids@);
        assert(visible_venues_of(t) == visible_venues_of(s));
        let x = visible_venues_of(s)[s.venue_index].id@;
        assert forall|w: Seq<char>| a.contains(w) <==> c.contains(w) by {
            assert(c.contains(w) <==> (b.contains(w) != (w == x)));
            assert(b.contains(w) <==> (a.contains(w) != (w == x)));
        }
        lemma_text_order();
        lemma_ordered_unique(c, a, text_order());
    }
}

/// Toggling the date or venue under the filter cursor twice leaves the
/// selections and everything else as they were.
pub proof fn lemma_filter_toggle_twice(s: AppView, t: AppView, u: AppView, e1: Effect, e2: Effect)
    requires
        valid(s),
        s.screen == Screen::Filters,
        !on_apply(s),
        step(s, Action::Toggle, t, e1),
        step(t, Action::Toggle, u, e2),
    ensures
        u == s,
{
    lemma_text_order();
    let c = s.filter_cursor;
    let d = s.filter_dates;
    if c < d.len() {
        assert forall|w: Seq<char>| s.selected_filter_dates.contains(w) <==> u.selected_filter_dates.contains(w) by {
            assert(u.selected_filter_dates.contains(w) <==> (t.selected_filter_dates.contains(w) != (w == d[c])));
            assert(t.selected_filter_dates.contains(w) <==> (s.selected_filter_dates.contains(w) != (w == d[c])));
        }
        lemma_ordered_unique(u.selected_filter_dates, s.selected_filter_dates, text_order());
    } else if c - d.len() < s.filter_venues.len() {
        let x = s.filter_venues[c - d.len()];
        assert forall|w: Seq<char>| s.selected_filter_venues.contains(w) <==> u.selected_filter_venues.contains(w) by {
            assert(u.selected_filter_venues.contains(w) <==> (t.selected_filter_venues.contains(w) != (w == x)));
            assert(t.selected_filter_venues.contains(w) <==> (s.selected_filter_venues.contains(w) != (w == x)));
        }
        lemma_ordered_unique(u.selected_filter_venues, s.selected_filter_venues, text_order());
    }
    assert(u =~= s);
}

proof fn lemma_venues_in_members(venues: Seq<Venue>, city: Seq<char>)
    ensures
        forall|k: int|
            0 <= k < venues_in(venues, city).len() ==> (#[trigger] venues_in(venues, city)[k]).city@ == city
                && venues.contains(venues_in(venues, city)[k]),
    decreases venues.len(),
{
    if venues.len() > 0 {
        lemma_venues_in_members(venues.drop_last(), city);
        assert forall|k: int| 0 <= k < venues_in(venues, city).len() implies (#[trigger] venues_in(venues, city)[k]).city@
            == city && venues.contains(venues_in(venues, city)[k]) by {
            let x = venues_in(venues, city)[k];
            if venues.last().city@ == city && k == venues_in(venues, city).len() - 1 {
                assert(venues[venues.len() - 1] == x);
            } else {
                assert(x == venues_in(venues.drop_last(), city)[k]);
                let m = choose|m: int| 0 <= m < venues.drop_last().len() && venues.drop_last()[m] == x;
                assert(venues[m] == x);
            }
        }
    }
}

/// The venue setup lists only venues of the catalog in the saved city, and
/// none without a saved city.
pub proof fn lemma_visible_venues_in_city(s: AppView)
    ensures
        s.preferences.city is None ==> visible_venues_of(s).len() == 0,
        forall|k: int|
            0 <= k < visible_venues_of(s).len() ==> s.preferences.city is Some && (
            #[trigger] visible_venues_of(s)[k]).city@ == s.preferences.city.unwrap()@
                && s.catalog.venues@.contains(visible_venues_of(s)[k]),
{
    if let Some(c) = s.preferences.city {
        lemma_venues_in_members(s.catalog.venues@, c@);
    }
}

proof fn lemma_movies_shown_members(catalog: Catalog, movies: Seq<Movie>, q: Seq<char>, city: Option<String>)
    ensures
        forall|k: int|
            0 <= k < movies_shown(catalog, movies, q, city).len() ==> movie_shown(
                catalog,
                #[trigger] movies_shown(catalog, movies, q, city)[k],
                q,
                city,
            ) && movies.contains(movies_shown(catalog, movies, q, city)[k]),
    decreases movies.len(),
{
    if movies.len() > 0 {
        lemma_movies_shown_members(catalog, movies.drop_last(), q, city);
        assert forall|k: int| 0 <= k < movies_shown(catalog, movies, q, city).len() implies movie_shown(
            catalog,
            #[trigger] movies_shown(catalog, movies, q, city)[k],
            q,
            city,
        ) && movies.contains(movies_shown(catalog, movies, q, city)[k]) by {
            let x = movies_shown(catalog, movies, q, city)[k];
            if movie_shown(catalog, movies.last(), q, city) && k == movies_shown(catalog, movies, q, city).len() - 1 {
                assert(movies[movies.len() - 1] == x);
            } else {
                assert(x == movies_shown(catalog, movies.drop_last(), q, city)[k]);
                let m = choose|m: int| 0 <= m < movies.drop_last().len() && movies.drop_last()[m] == x;
                assert(movies[m] == x);
            }
        }
    }
}

/// Every movie listed is a catalog movie whose title matches the query and
/// that has a showtime in the saved city.
pub proof fn lemma_visible_movies_match(s: AppView)
    ensures
        forall|k: int|
            0 <= k < visible_movies_of(s).len() ==> title_matches(
                (#[trigger] visible_movies_of(s)[k]).title@,
                unicode_lowercase_text(s.query),
            ) && movie_in_city(s.catalog, visible_movies_of(s)[k], s.preferences.city)
                && s.catalog.movies@.contains(visible_movies_of(s)[k]),
{
    lemma_movies_shown_members(s.catalog, s.catalog.movies@, unicode_lowercase_text(s.query), s.preferences.city);
}

/// The welcome screen waits for a confirmation: every other action but
/// quitting leaves the state unchanged and asks for nothing.
pub proof fn lemma_welcome_waits_for_confirm(s: AppView, a: Action, t: AppView, e: Effect)
    requires
        s.screen == Screen::Welcome,
        a != Action::Confirm,
        a != Action::Quit,
        step(s, a, t, e),
    ensures
        t == s,
        e == Effect::Nothing,
{
}

/// Quitting raises the quit flag and changes nothing else.
pub proof fn lemma_quit_changes_nothing_else(s: AppView, t: AppView, e: Effect)
    requires
        step(s, Action::Quit, t, e),
    ensures
        t.should_quit,
        t == (AppView { should_quit: true, ..s }),
        e == Effect::Nothing,
{
}

} // verus!
