use myrient_bulk::catalog::{
    choice_from, collections_titled, get_catalog_url, get_collection_url, read_choice,
    resolve_collection, ChoiceError, Resolution,
};
use myrient_bulk::dat::{get_header_data, parse};
use myrient_bulk::myrient::{Catalog, Collection};

const ROOT_PAGE: &str = r#"<html><body><table id="list"><tbody>
<tr><td class="link"><a href="../">Parent directory/</a></td></tr>
<tr><td class="link"><a href="No-Intro/" title="No-Intro">No-Intro/</a></td></tr>
<tr><td class="link"><a href="Redump/" title="Redump">Redump/</a></td></tr>
</tbody></table></body></html>"#;

const CATALOG_PAGE: &str = r#"<html><body><table id="list"><tbody>
<tr><td class="link"><a href="Nintendo%20-%20Game%20Boy/" title="Nintendo - Game Boy">Nintendo - Game Boy/</a></td></tr>
<tr><td class="link"><a href="Nintendo%20-%20Game%20Boy%20Advance/" title="Nintendo - Game Boy Advance">Nintendo - Game Boy Advance/</a></td></tr>
<tr><td class="link"><a href="Nintendo%20-%20Game%20Boy%20Color/" title="Nintendo - Game Boy Color">Nintendo - Game Boy Color/</a></td></tr>
<tr><td class="link"><a href="Sega%20-%20Mega%20Drive/" title="Sega - Mega Drive">Sega - Mega Drive/</a></td></tr>
</tbody></table></body></html>"#;

fn catalogs() -> Vec<Catalog> {
    vec![
        Catalog { title: "No-Intro".to_string(), url: "No-Intro/".to_string() },
        Catalog { title: "Redump".to_string(), url: "Redump/".to_string() },
    ]
}

fn collection(title: &str, url: &str) -> Collection {
    Collection { title: title.to_string(), url: url.to_string() }
}

fn collections() -> Vec<Collection> {
    vec![
        collection("Nintendo - Game Boy", "Nintendo%20-%20Game%20Boy/"),
        collection("Nintendo - Game Boy Advance", "Nintendo%20-%20Game%20Boy%20Advance/"),
        collection("Nintendo - Game Boy Color", "Nintendo%20-%20Game%20Boy%20Color/"),
        collection("Sega - Mega Drive", "Sega%20-%20Mega%20Drive/"),
    ]
}

#[test]
fn catalog_is_taken_where_the_name_finds_it() {
    assert_eq!(
        get_catalog_url(&ROOT_PAGE.to_string(), &"Redump".to_string(), false),
        Resolution::Automatic("Redump/".to_string())
    );
}

#[test]
fn catalog_is_chosen_by_hand_on_request() {
    assert_eq!(
        get_catalog_url(&ROOT_PAGE.to_string(), &"Redump".to_string(), true),
        Resolution::Interactive { options: catalogs(), narrowed: false }
    );
}

#[test]
fn catalog_is_chosen_by_hand_where_the_name_finds_nothing() {
    assert_eq!(
        get_catalog_url(&ROOT_PAGE.to_string(), &"TOSEC".to_string(), false),
        Resolution::Interactive { options: catalogs(), narrowed: false }
    );
}

#[test]
fn catalog_without_name_is_chosen_from_the_whole_listing() {
    assert_eq!(
        get_catalog_url(&ROOT_PAGE.to_string(), &String::new(), false),
        Resolution::Interactive { options: catalogs(), narrowed: false }
    );
}

#[test]
fn unlisted_origin_falls_back_to_the_whole_listing() {
    let doc = parse(
        "<datafile><header><name>Sega - Mega Drive</name><url>http://elsewhere.example/</url></header></datafile>",
    )
    .unwrap();
    let (system, catalog) = get_header_data(&doc);
    assert_eq!(catalog, None);
    let found = get_catalog_url(&ROOT_PAGE.to_string(), &catalog.unwrap_or_default(), false);
    assert_eq!(found, Resolution::Interactive { options: catalogs(), narrowed: false });
    assert_eq!(
        get_collection_url(&CATALOG_PAGE.to_string(), &system.unwrap_or_default(), false),
        Resolution::Automatic("Sega%20-%20Mega%20Drive/".to_string())
    );
}

#[test]
fn redump_origin_resolves_by_itself() {
    let doc = parse(
        "<datafile><header><name>Sony - PlayStation</name><url>http://redump.org/</url></header></datafile>",
    )
    .unwrap();
    let (_, catalog) = get_header_data(&doc);
    assert_eq!(catalog, Some("Redump".to_string()));
    assert_eq!(
        get_catalog_url(&ROOT_PAGE.to_string(), &catalog.unwrap(), false),
        Resolution::Automatic("Redump/".to_string())
    );
}

#[test]
fn collection_is_taken_where_one_title_holds_the_name() {
    assert_eq!(
        get_collection_url(&CATALOG_PAGE.to_string(), &"Game Boy Color".to_string(), false),
        Resolution::Automatic("Nintendo%20-%20Game%20Boy%20Color/".to_string())
    );
}

#[test]
fn several_matches_are_offered_alone() {
    assert_eq!(
        get_collection_url(&CATALOG_PAGE.to_string(), &"Nintendo - Game Boy".to_string(), false),
        Resolution::Interactive {
            options: vec![
                collection("Nintendo - Game Boy", "Nintendo%20-%20Game%20Boy/"),
                collection("Nintendo - Game Boy Advance", "Nintendo%20-%20Game%20Boy%20Advance/"),
                collection("Nintendo - Game Boy Color", "Nintendo%20-%20Game%20Boy%20Color/"),
            ],
            narrowed: true,
        }
    );
}

#[test]
fn choice_by_hand_offers_the_whole_listing() {
    assert_eq!(
        get_collection_url(&CATALOG_PAGE.to_string(), &"Nintendo - Game Boy".to_string(), true),
        Resolution::Interactive { options: collections(), narrowed: false }
    );
    assert_eq!(
        get_collection_url(&CATALOG_PAGE.to_string(), &"Mega Drive".to_string(), true),
        Resolution::Interactive { options: collections(), narrowed: false }
    );
}

#[test]
fn no_match_offers_the_whole_listing() {
    assert_eq!(
        get_collection_url(&CATALOG_PAGE.to_string(), &"Atari".to_string(), false),
        Resolution::Interactive { options: collections(), narrowed: false }
    );
    assert_eq!(
        get_collection_url(&CATALOG_PAGE.to_string(), &String::new(), false),
        Resolution::Interactive { options: collections(), narrowed: false }
    );
}

#[test]
fn collection_names_are_case_sensitive() {
    assert_eq!(
        resolve_collection(collections(), "mega drive", false),
        Resolution::Interactive { options: collections(), narrowed: false }
    );
}

#[test]
fn resolve_collection_of_an_empty_listing() {
    assert_eq!(resolve_collection(vec![], "Game Boy", false), Resolution::Interactive { options: vec![], narrowed: false });
}

#[test]
fn collections_titled_filters_in_order() {
    assert_eq!(
        collections_titled(&collections(), "Boy "),
        vec![
            collection("Nintendo - Game Boy Advance", "Nintendo%20-%20Game%20Boy%20Advance/"),
            collection("Nintendo - Game Boy Color", "Nintendo%20-%20Game%20Boy%20Color/"),
        ]
    );
    assert_eq!(collections_titled(&collections(), "Atari"), vec![]);
    assert_eq!(collections_titled(&collections(), ""), collections());
}

#[test]
fn choice_counts_from_one() {
    assert_eq!(choice_from("1", 3), Ok(0));
    assert_eq!(choice_from("3", 3), Ok(2));
    assert_eq!(choice_from("+2", 3), Ok(1));
    assert_eq!(choice_from("02", 3), Ok(1));
}

#[test]
fn choice_out_of_range() {
    assert_eq!(choice_from("0", 3), Err(ChoiceError::OutOfRange));
    assert_eq!(choice_from("4", 3), Err(ChoiceError::OutOfRange));
    assert_eq!(choice_from("1", 0), Err(ChoiceError::OutOfRange));
}

#[test]
fn choice_that_is_no_number() {
    assert_eq!(choice_from("", 3), Err(ChoiceError::NotANumber));
    assert_eq!(choice_from("two", 3), Err(ChoiceError::NotANumber));
    assert_eq!(choice_from("-1", 3), Err(ChoiceError::NotANumber));
    assert_eq!(choice_from("2.0", 3), Err(ChoiceError::NotANumber));
    assert_eq!(choice_from(" 2", 3), Err(ChoiceError::NotANumber));
    assert_eq!(choice_from("99999999999999999999999999", 3), Err(ChoiceError::NotANumber));
}

#[test]
fn read_choice_passes_over_white_space() {
    assert_eq!(read_choice("2\n", 3), Ok(1));
    assert_eq!(read_choice("  3 \r\n", 3), Ok(2));
    assert_eq!(read_choice("\t1", 3), Ok(0));
    assert_eq!(read_choice("\n", 3), Err(ChoiceError::NotANumber));
    assert_eq!(read_choice("1 2\n", 3), Err(ChoiceError::NotANumber));
    assert_eq!(read_choice("7\n", 3), Err(ChoiceError::OutOfRange));
}
