use tile_sorcerer::tm2::{DataLayer, DataLayerProperties, LayerSource, TM2Source, TILE_EXTENT, TILE_SIZE};

fn layer(id: &str, buffer_size: i64, table: &str, key_field: &str) -> DataLayer {
    DataLayer {
        id: String::from(id),
        properties: DataLayerProperties { buffer_size },
        source: LayerSource { table: String::from(table), key_field: String::from(key_field) },
    }
}

fn test_source() -> TM2Source {
    TM2Source {
        name: String::from("Test Style"),
        pixel_scale: 256,
        layers: vec![
            layer("water", 4, "(SELECT geometry FROM layer_water(!bbox!))", ""),
            layer("land", 4, "(SELECT geometry, osm_id FROM layer_land(!bbox!))", "osm_id"),
            layer("poi", 32, "(SELECT geometry FROM layer_poi(!bbox!))", ""),
        ],
        attribution: String::from("OpenStreetMap"),
        min_zoom: 0,
        max_zoom: 14,
    }
}

#[test]
fn test_generate_prepared_statement_sql() {
    // Simple tests with some contrived layers to make sure the substitution works
    let source = test_source();

    let sql = source.prepared_statement_sql();

    // Make sure it's not empty
    assert_ne!(0, sql.len());

    // Check that the layers show up
    assert!(sql.contains("layer_water"));
    assert!(sql.contains("layer_land"));
    assert!(sql.contains("layer_poi"));
    assert_eq!(sql.matches("ST_AsMVT(").collect::<Vec<_>>().len(), 3);
    assert_eq!(sql.matches("ST_AsMVTGeom(").collect::<Vec<_>>().len(), 3);
    assert_eq!(sql.matches("osm_id").collect::<Vec<_>>().len(), 2);
}

#[test]
fn test_slot_table_dedup() {
    // Three layers share two distinct buffer sizes: exactly two slots result.
    let source = test_source();
    let slots = source.buffer_slot_table();
    assert_eq!(slots, vec![4, 32]);

    let plan = source.compile();
    assert_eq!(plan.buffer_sizes, vec![4, 32]);
    // Six shared parameters plus four per distinct buffer size.
    assert_eq!(plan.param_count(), 14);
}

#[test]
fn test_slot_table_order_independent() {
    let mut a = test_source();
    let b = test_source();
    a.layers.reverse();
    assert_eq!(a.buffer_slot_table(), b.buffer_slot_table());
}

#[test]
fn test_compile_deterministic() {
    let source = test_source();
    let first = source.prepared_statement_sql();
    let second = source.prepared_statement_sql();
    assert_eq!(first, second);
    let plan_a = source.compile();
    let plan_b = source.compile();
    assert_eq!(plan_a.sql, plan_b.sql);
    assert_eq!(plan_a.buffer_sizes, plan_b.buffer_sizes);
}

#[test]
fn test_envelope_parameter_references() {
    let source = test_source();
    let sql = source.prepared_statement_sql();

    // The water and land layers share slot 0 (buffer 4); poi owns slot 1.
    assert_eq!(sql.matches("ST_MakeEnvelope($7, $8, $9, $10, 3857)").count(), 2);
    assert_eq!(sql.matches("ST_MakeEnvelope($11, $12, $13, $14, 3857)").count(), 1);

    // Buffer sizes are rendered as extent-relative quantities: 8 units/pixel.
    assert!(sql.contains("ST_AsMVTGeom(geometry,ST_MakeEnvelope($1, $2, $3, $4, 3857),4096,32,true) as geom"));
    assert!(sql.contains("ST_AsMVTGeom(geometry,ST_MakeEnvelope($1, $2, $3, $4, 3857),4096,256,true) as geom"));

    // One aggregate wrapper around the union of the layers.
    assert!(sql.starts_with("SELECT STRING_AGG(a.mvt, NULL) FROM ("));
    assert!(sql.ends_with(") a"));
    assert_eq!(sql.matches(" UNION ALL ").count(), 2);
}

#[test]
fn test_all_tokens_substituted() {
    // A template holding every recognized placeholder: after compilation no
    // original token survives and each encoder is invoked once per layer.
    let source = TM2Source {
        name: String::from("Tokens"),
        pixel_scale: 256,
        layers: vec![layer(
            "roads",
            16,
            "(SELECT geometry, z(!scale_denominator!) AS sd, !pixel_width! AS pw \
             FROM tbl WHERE g && !bbox! AND h && !bbox_nobuffer!)",
            "",
        )],
        attribution: String::from(""),
        min_zoom: 0,
        max_zoom: 14,
    };
    let sql = source.prepared_statement_sql();
    assert_eq!(sql.matches("!bbox!").count(), 0);
    assert_eq!(sql.matches("!bbox_nobuffer!").count(), 0);
    assert_eq!(sql.matches("!scale_denominator!").count(), 0);
    assert_eq!(sql.matches("!pixel_width!").count(), 0);
    assert_eq!(sql.matches("ST_AsMVTGeom(").count(), 1);
    assert_eq!(sql.matches("ST_AsMVT(").count(), 1);
    // The zoom and pixel-scale parameters took the tokens' places.
    assert!(sql.contains("$5 AS sd"));
    assert!(sql.contains("$6 AS pw"));
}

#[test]
fn test_extent_constants() {
    // The compiled text quantizes into the fixed extent, and buffers are
    // expressed at TILE_EXTENT / TILE_SIZE extent units per pixel.
    assert_eq!(TILE_EXTENT, 4096);
    assert_eq!(TILE_SIZE, 512);
    assert_eq!(TILE_EXTENT / TILE_SIZE, 8);
}

#[test]
fn test_key_field_appended() {
    let source = test_source();
    let sql = source.prepared_statement_sql();
    assert!(sql.contains("ST_AsMVT(t.*, 'land', 4096, 'geom', 'osm_id') AS mvt"));
    assert!(sql.contains("ST_AsMVT(t.*, 'water', 4096, 'geom') AS mvt"));
}
