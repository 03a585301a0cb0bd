use tile_sorcerer::error::Error;
use tile_sorcerer::tm2::{
    extract_subquery, DataLayer, DataLayerProperties, LayerSource, TM2Source,
};

#[test]
fn test_extract_subquery_with_alias() {
    let r = extract_subquery("  ( SELECT geometry FROM water ) AS data  ");
    assert_eq!(r, Ok(String::from(" SELECT geometry FROM water ")));
}

#[test]
fn test_extract_subquery_without_alias() {
    let r = extract_subquery("(SELECT geometry FROM layer_water(!bbox!))");
    assert_eq!(r, Ok(String::from("SELECT geometry FROM layer_water(!bbox!)")));
}

#[test]
fn test_extract_subquery_nested_parens() {
    let r = extract_subquery("(SELECT f(x), g(y) FROM t) AS q");
    assert_eq!(r, Ok(String::from("SELECT f(x), g(y) FROM t")));
}

#[test]
fn test_extract_subquery_rejects_unwrapped() {
    assert_eq!(extract_subquery("SELECT 1"), Err(Error::Template));
    assert_eq!(extract_subquery(""), Err(Error::Template));
    assert_eq!(extract_subquery("   "), Err(Error::Template));
}

#[test]
fn test_extract_subquery_rejects_bad_tail() {
    // Junk after the closing parenthesis that is no ` AS <alias>` clause.
    assert_eq!(extract_subquery("(SELECT 1) WHERE x"), Err(Error::Template));
    // An alias clause with nothing after it.
    assert_eq!(extract_subquery("(SELECT 1) AS"), Err(Error::Template));
    assert_eq!(extract_subquery("(SELECT 1) AS "), Err(Error::Template));
}

fn wrapped_source() -> TM2Source {
    TM2Source {
        name: String::from("Wrapped"),
        pixel_scale: 256,
        layers: vec![
            DataLayer {
                id: String::from("water"),
                properties: DataLayerProperties { buffer_size: 8 },
                source: LayerSource {
                    table: String::from("( SELECT geometry FROM water ) AS t"),
                    key_field: String::from(""),
                },
            },
            DataLayer {
                id: String::from("land"),
                properties: DataLayerProperties { buffer_size: 8 },
                source: LayerSource {
                    table: String::from("(SELECT geometry, osm_id FROM land)"),
                    key_field: String::from("osm_id"),
                },
            },
        ],
        attribution: String::from(""),
        min_zoom: 0,
        max_zoom: 14,
    }
}

#[test]
fn test_normalized_rewrites_tables() {
    let source = wrapped_source();
    let normalized = source.normalized().expect("both tables follow the convention");
    assert_eq!(normalized.layers[0].source.table, " SELECT geometry FROM water ");
    assert_eq!(normalized.layers[1].source.table, "SELECT geometry, osm_id FROM land");
    // Everything else is untouched.
    assert_eq!(normalized.name, "Wrapped");
    assert_eq!(normalized.layers[0].id, "water");
    assert_eq!(normalized.layers[1].source.key_field, "osm_id");
    assert_eq!(normalized.layers[0].properties.buffer_size, 8);
}

#[test]
fn test_normalized_rejects_malformed_layer() {
    let mut source = wrapped_source();
    source.layers[1].source.table = String::from("SELECT geometry FROM land");
    assert_eq!(source.normalized().err(), Some(Error::Template));
}
