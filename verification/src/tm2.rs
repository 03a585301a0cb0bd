//! Data models and query-plan compilation for TileMill 2 sources.

use vstd::prelude::*;
use vstd::seq_lib::*;
use vstd::string::*;

use crate::error::Error;
use crate::slots::{
    insert_distinct, insert_slot, lemma_sorted_distinct, lemma_strictly_sorted_unique, slot_index,
    slot_of, sorted_distinct, strictly_sorted,
};
use crate::text::{
    dec_spec, find_last, find_last_spec, lemma_dec_digits, lemma_replace_leaves_no_occurrence,
    occurs, replace, replace_spec, trim_bounds, trim_spec, u64_to_string,
};

verus! {

/// The TileMill (.tm2source) data source model, reduced to the fields the
/// query-plan compiler reads. Center and bounds metadata carry no weight in
/// compilation and live with the application's parsing model.
#[derive(Clone, Debug)]
pub struct TM2Source {
    pub name: String,
    pub pixel_scale: i64,
    pub layers: Vec<DataLayer>,
    pub attribution: String,
    pub min_zoom: i64,
    pub max_zoom: i64,
}

/// A single layer of a `TM2Source`.
#[derive(Clone, Debug)]
pub struct DataLayer {
    pub id: String,
    pub properties: DataLayerProperties,
    pub source: LayerSource,
}

/// A `DataLayer`'s source details.
#[derive(Clone, Debug)]
pub struct LayerSource {
    pub table: String,
    pub key_field: String,
}

/// Additional properties of a `DataLayer`.
#[derive(Clone, Debug)]
pub struct DataLayerProperties {
    pub buffer_size: i64,
}

/// Mathematical model of a `TM2Source`.
pub struct TM2SourceView {
    pub name: Seq<char>,
    pub pixel_scale: int,
    pub layers: Seq<DataLayerView>,
    pub attribution: Seq<char>,
    pub min_zoom: int,
    pub max_zoom: int,
}

/// Mathematical model of a `DataLayer`.
pub struct DataLayerView {
    pub id: Seq<char>,
    pub buffer_size: i64,
    pub table: Seq<char>,
    pub key_field: Seq<char>,
}

impl View for DataLayer {
    type V = DataLayerView;

    open spec fn view(&self) -> DataLayerView {
        DataLayerView {
            id: self.id@,
            buffer_size: self.properties.buffer_size,
            table: self.source.table@,
            key_field: self.source.key_field@,
        }
    }
}

impl View for TM2Source {
    type V = TM2SourceView;

    open spec fn view(&self) -> TM2SourceView {
        TM2SourceView {
            name: self.name@,
            pixel_scale: self.pixel_scale as int,
            layers: self.layers@.map_values(|l: DataLayer| l@),
            attribution: self.attribution@,
            min_zoom: self.min_zoom as int,
            max_zoom: self.max_zoom as int,
        }
    }
}

/// Is `r` an acceptable tail after the closing parenthesis of a wrapped
/// template: either nothing, or an ` AS ` clause with a non-empty alias?
pub open spec fn alias_ok(r: Seq<char>) -> bool {
    ||| r.len() == 0
    ||| (r.len() >= 5 && r[0] == ' ' && r[1] == 'A' && r[2] == 'S' && r[3] == ' ')
}

/// Does `t` (already trimmed) follow the delimited wrapper convention
/// `( <sub-query> ) AS <alias>`, the alias clause being optional?
pub open spec fn wrapped_table(t: Seq<char>) -> bool {
    let j = find_last_spec(t, ')');
    &&& t.len() >= 2
    &&& t[0] == '('
    &&& j >= 1
    &&& alias_ok(t.skip(j + 1))
}

/// The sub-query between the opening parenthesis and the last closing one.
pub open spec fn table_subquery(t: Seq<char>) -> Seq<char> {
    t.subrange(1, find_last_spec(t, ')'))
}

/// Validates the delimited wrapper convention around a layer's raw table
/// template and returns the enclosed sub-query, or an error on mismatch.
pub fn extract_subquery(table: &str) -> (r: Result<String, Error>)
    ensures
        r is Ok <==> wrapped_table(trim_spec(table@)),
        r is Ok ==> r->Ok_0@ == table_subquery(trim_spec(table@)),
{
    let (lo, hi) = trim_bounds(table);
    let t = table.substring_char(lo, hi);
    proof {
        assert(t@ == trim_spec(table@));
    }
    let tn = t.unicode_len();
    if tn < 2 || t.get_char(0) != '(' {
        return Err(Error::Template);
    }
    let j = match find_last(t, ')') {
        Some(j) => j,
        None => {
            return Err(Error::Template);
        },
    };
    proof {
        lemma_find_last_index(t@, ')');
    }
    if j == 0 {
        return Err(Error::Template);
    }
    let rest = tn - (j + 1);
    let tail_ok = if rest == 0 {
        true
    } else {
        rest >= 5 && t.get_char(j + 1) == ' ' && t.get_char(j + 2) == 'A' && t.get_char(j + 3)
            == 'S' && t.get_char(j + 4) == ' '
    };
    proof {
        let tail = t@.skip(j + 1);
        assert(tail.len() == tn - (j + 1));
        if tail.len() >= 5 {
            assert(tail[0] == t@[j + 1]);
            assert(tail[1] == t@[j + 2]);
            assert(tail[2] == t@[j + 3]);
            assert(tail[3] == t@[j + 4]);
        }
        assert(tail_ok == alias_ok(tail));
    }
    if !tail_ok {
        return Err(Error::Template);
    }
    let inner = t.substring_char(1, j);
    proof {
        assert(inner@ == table_subquery(t@));
    }
    Ok(String::from_str(inner))
}

/// Does every layer's table template follow the wrapper convention?
pub open spec fn tables_wrapped(layers: Seq<DataLayerView>) -> bool {
    forall|i: int| 0 <= i < layers.len() ==> wrapped_table(trim_spec(layers[i].table))
}

/// A layer with its table template replaced by the enclosed sub-query.
pub open spec fn normalized_layer(l: DataLayerView) -> DataLayerView {
    DataLayerView { table: table_subquery(trim_spec(l.table)), ..l }
}

impl TM2Source {
    /// Replaces each layer's wrapped table template with the sub-query it
    /// encloses, validating the wrapper convention layer by layer.
    pub fn normalized(&self) -> (r: Result<TM2Source, Error>)
        ensures
            r is Ok <==> tables_wrapped(self@.layers),
            r is Ok ==> r->Ok_0@ == (TM2SourceView {
                layers: self@.layers.map_values(|l: DataLayerView| normalized_layer(l)),
                ..self@
            }),
    {
        let mut layers: Vec<DataLayer> = Vec::new();
        let n = self.layers.len();
        let mut i: usize = 0;
        while i < n
            invariant
                n == self.layers.len(),
                i <= n,
                layers@.len() == i,
                forall|k: int| 0 <= k < i ==> wrapped_table(trim_spec(self@.layers[k].table)),
                forall|k: int|
                    0 <= k < i ==> layers@[k]@ == normalized_layer(self@.layers[k]),
            decreases n - i,
        {
            let l = &self.layers[i];
            let inner = match extract_subquery(l.source.table.as_str()) {
                Ok(s) => s,
                Err(e) => {
                    proof {
                        assert(!wrapped_table(trim_spec(self@.layers[i as int].table)));
                    }
                    return Err(e);
                },
            };
            let fresh = DataLayer {
                id: l.id.clone(),
                properties: DataLayerProperties { buffer_size: l.properties.buffer_size },
                source: LayerSource { table: inner, key_field: l.source.key_field.clone() },
            };
            proof {
                assert(fresh@ == normalized_layer(self@.layers[i as int]));
            }
            layers.push(fresh);
            i += 1;
        }
        let out = TM2Source {
            name: self.name.clone(),
            pixel_scale: self.pixel_scale,
            layers,
            attribution: self.attribution.clone(),
            min_zoom: self.min_zoom,
            max_zoom: self.max_zoom,
        };
        proof {
            assert(out@.layers =~= self@.layers.map_values(|l: DataLayerView| normalized_layer(l)));
        }
        Ok(out)
    }
}

/// The fixed integer coordinate resolution a layer's geometry is quantized
/// into within a tile.
pub const TILE_EXTENT: u16 = 4096;

/// The nominal tile edge in pixels used to express a pixel buffer as an
/// extent-relative quantity: `TILE_EXTENT / TILE_SIZE` extent units per pixel.
pub const TILE_SIZE: u16 = 512;

/// The buffer sizes requested by the layers, in layer order.
pub open spec fn layer_buffers(layers: Seq<DataLayerView>) -> Seq<i64> {
    layers.map_values(|l: DataLayerView| l.buffer_size)
}

impl TM2SourceView {
    /// Machine-representability bounds: slot parameter numbers and
    /// extent-relative buffer quantities must fit their integer types.
    pub open spec fn wf(self) -> bool {
        &&& self.layers.len() <= 0x1000_0000
        &&& forall|i: int|
            0 <= i < self.layers.len() ==> 0 <= (#[trigger] self.layers[i]).buffer_size
                <= 0x1000_0000
    }
}

/// A positional reference to the four envelope parameters starting at
/// parameter number `base`, in west, south, east, north order.
pub open spec fn envelope_ref_spec(base: int) -> Seq<char> {
    "ST_MakeEnvelope($"@ + dec_spec(base) + ", $"@ + dec_spec(base + 1) + ", $"@ + dec_spec(
        base + 2,
    ) + ", $"@ + dec_spec(base + 3) + ", 3857)"@
}

fn envelope_ref(base: u64) -> (r: String)
    requires
        base <= 0xFFFF_FFFF,
    ensures
        r@ == envelope_ref_spec(base as int),
{
    let mut r = String::from_str("ST_MakeEnvelope($");
    let s0 = u64_to_string(base);
    r.append(s0.as_str());
    r.append(", $");
    let s1 = u64_to_string(base + 1);
    r.append(s1.as_str());
    r.append(", $");
    let s2 = u64_to_string(base + 2);
    r.append(s2.as_str());
    r.append(", $");
    let s3 = u64_to_string(base + 3);
    r.append(s3.as_str());
    r.append(", 3857)");
    r
}

/// The geometry-encoder call substituted for the literal geometry column:
/// the tile extent, the buffer as an extent-relative quantity
/// (`TILE_EXTENT / TILE_SIZE` extent units per buffer pixel), and clipping
/// enabled.
pub open spec fn geom_call_spec(buffer_size: int) -> Seq<char> {
    "ST_AsMVTGeom(geometry,!bbox_nobuffer!,4096,"@ + dec_spec(8 * buffer_size)
        + ",true) as geom"@
}

fn geom_call(buffer_size: i64) -> (r: String)
    requires
        0 <= buffer_size <= 0x1000_0000,
    ensures
        r@ == geom_call_spec(buffer_size as int),
{
    let mut r = String::from_str("ST_AsMVTGeom(geometry,!bbox_nobuffer!,4096,");
    let b8 = u64_to_string((buffer_size as u64) * 8);
    r.append(b8.as_str());
    r.append(",true) as geom");
    r
}

/// The optional key-field argument appended to the layer-encoder call.
pub open spec fn key_part_spec(key_field: Seq<char>) -> Seq<char> {
    if key_field.len() == 0 {
        Seq::empty()
    } else {
        ", '"@ + key_field + "'"@
    }
}

/// The parameter number of the first envelope scalar of slot `slot`: a fixed
/// prefix of six shared parameters (unbuffered envelope, zoom, pixel scale)
/// precedes the envelope groups, four scalars per slot.
pub open spec fn slot_param_base(slot: int) -> int {
    7 + 4 * slot
}

/// The layer's template with every recognized placeholder substituted: the
/// geometry column becomes the encoder call, the envelope tokens become
/// parameter references, and the scale-denominator and pixel-width tokens
/// become the zoom and pixel-scale parameters.
pub open spec fn rewritten_template(l: DataLayerView, slots: Seq<i64>) -> Seq<char> {
    let q1 = replace_spec(l.table, "geometry"@, geom_call_spec(l.buffer_size as int));
    let q2 = replace_spec(q1, "!bbox_nobuffer!"@, envelope_ref_spec(1));
    let q3 = replace_spec(q2, "z(!scale_denominator!)"@, "$5"@);
    let q4 = replace_spec(q3, "!pixel_width!"@, "$6"@);
    replace_spec(
        q4,
        "!bbox!"@,
        envelope_ref_spec(slot_param_base(slot_index(slots, l.buffer_size))),
    )
}

/// One layer's sub-statement: the rewritten template wrapped in the
/// layer-encoder call, null geometries excluded.
pub open spec fn layer_sql_spec(l: DataLayerView, slots: Seq<i64>) -> Seq<char> {
    "SELECT ST_AsMVT(t.*, '"@ + l.id + "', 4096, 'geom'"@ + key_part_spec(l.key_field)
        + ") AS mvt FROM ("@ + rewritten_template(l, slots) + ") as t WHERE t.geom IS NOT NULL"@
}

fn layer_sql(l: &DataLayer, slots: &Vec<i64>) -> (r: String)
    requires
        slots@.contains(l.properties.buffer_size),
        slots@.len() <= 0x1000_0000,
        0 <= l.properties.buffer_size <= 0x1000_0000,
    ensures
        r@ == layer_sql_spec(l@, slots@),
{
    proof {
        reveal_strlit("geometry");
        reveal_strlit("!bbox_nobuffer!");
        reveal_strlit("z(!scale_denominator!)");
        reveal_strlit("!pixel_width!");
        reveal_strlit("!bbox!");
    }
    let slot = slot_of(slots, l.properties.buffer_size);
    let base: u64 = 7 + 4 * (slot as u64);
    let geom = geom_call(l.properties.buffer_size);
    let q1 = replace(l.source.table.as_str(), "geometry", geom.as_str());
    let env_shared = envelope_ref(1);
    let q2 = replace(q1.as_str(), "!bbox_nobuffer!", env_shared.as_str());
    let q3 = replace(q2.as_str(), "z(!scale_denominator!)", "$5");
    let q4 = replace(q3.as_str(), "!pixel_width!", "$6");
    let env_slot = envelope_ref(base);
    let q5 = replace(q4.as_str(), "!bbox!", env_slot.as_str());
    let mut r = String::from_str("SELECT ST_AsMVT(t.*, '");
    r.append(l.id.as_str());
    r.append("', 4096, 'geom'");
    if l.source.key_field.as_str().unicode_len() > 0 {
        r.append(", '");
        r.append(l.source.key_field.as_str());
        r.append("'");
    }
    r.append(") AS mvt FROM (");
    r.append(q5.as_str());
    r.append(") as t WHERE t.geom IS NOT NULL");
    r
}

/// The per-layer sub-statements combined with a set-concatenating
/// combinator, in layer order.
pub open spec fn union_sql_spec(layers: Seq<DataLayerView>, slots: Seq<i64>) -> Seq<char>
    decreases layers.len(),
{
    if layers.len() == 0 {
        Seq::empty()
    } else if layers.len() == 1 {
        layer_sql_spec(layers[0], slots)
    } else {
        union_sql_spec(layers.drop_last(), slots) + " UNION ALL "@ + layer_sql_spec(
            layers.last(),
            slots,
        )
    }
}

/// The complete compiled statement for a source: a pure function of the
/// source description alone.
pub open spec fn plan_sql_spec(src: TM2SourceView) -> Seq<char> {
    "SELECT STRING_AGG(a.mvt, NULL) FROM ("@ + union_sql_spec(
        src.layers,
        sorted_distinct(layer_buffers(src.layers)),
    ) + ") a"@
}

impl TM2Source {
    /// Collects, sorts and deduplicates the buffer sizes of all layers,
    /// assigning each distinct size the slot equal to its position.
    pub fn buffer_slot_table(&self) -> (r: Vec<i64>)
        ensures
            r@ == sorted_distinct(layer_buffers(self@.layers)),
    {
        let mut r: Vec<i64> = Vec::new();
        let n = self.layers.len();
        let mut i: usize = 0;
        proof {
            assert(layer_buffers(self@.layers.take(0)) =~= Seq::<i64>::empty());
        }
        while i < n
            invariant
                n == self.layers.len(),
                i <= n,
                r@ == sorted_distinct(layer_buffers(self@.layers.take(i as int))),
                strictly_sorted(r@),
            decreases n - i,
        {
            proof {
                let prev = layer_buffers(self@.layers.take(i as int));
                let cur = layer_buffers(self@.layers.take(i + 1));
                assert(cur.drop_last() =~= prev);
                assert(cur.last() == self@.layers[i as int].buffer_size);
                assert(sorted_distinct(cur) == insert_distinct(r@, cur.last()));
            }
            insert_slot(&mut r, self.layers[i].properties.buffer_size);
            i += 1;
            proof {
                lemma_sorted_distinct(layer_buffers(self@.layers.take(i as int)));
            }
        }
        proof {
            assert(self@.layers.take(n as int) =~= self@.layers);
        }
        r
    }

    /// Compiles the composed statement: every layer's template rewritten and
    /// wrapped, the layers combined in order.
    pub fn prepared_statement_sql(&self) -> (r: String)
        requires
            self@.wf(),
        ensures
            r@ == plan_sql_spec(self@),
    {
        let slots = self.buffer_slot_table();
        let n = self.layers.len();
        let mut body = String::new();
        let mut i: usize = 0;
        while i < n
            invariant
                n == self.layers.len(),
                i <= n,
                self@.wf(),
                slots@ == sorted_distinct(layer_buffers(self@.layers)),
                body@ == union_sql_spec(self@.layers.take(i as int), slots@),
            decreases n - i,
        {
            proof {
                lemma_sorted_distinct(layer_buffers(self@.layers));
                let b = layer_buffers(self@.layers);
                assert(b[i as int] == self@.layers[i as int].buffer_size);
                assert(b.contains(self@.layers[i as int].buffer_size));
            }
            if i > 0 {
                body.append(" UNION ALL ");
            }
            let ls = layer_sql(&self.layers[i], &slots);
            body.append(ls.as_str());
            proof {
                let lts = self@.layers.take(i + 1);
                assert(lts.drop_last() =~= self@.layers.take(i as int));
                assert(lts.last() == self@.layers[i as int]);
                assert(body@ =~= union_sql_spec(lts, slots@));
            }
            i += 1;
        }
        proof {
            assert(self@.layers.take(n as int) =~= self@.layers);
        }
        let mut r = String::from_str("SELECT STRING_AGG(a.mvt, NULL) FROM (");
        r.append(body.as_str());
        r.append(") a");
        r
    }
}

/// A compiled statement together with the buffer slot table that fixes its
/// parameter layout: parameters 1–4 are the unbuffered envelope (west,
/// south, east, north), 5 the zoom, 6 the pixel scale, and each slot `k`
/// owns the four envelope parameters starting at `7 + 4k`, in the same
/// west, south, east, north order and ascending slot order.
pub struct QueryPlan {
    pub sql: String,
    pub buffer_sizes: Vec<i64>,
}

/// Mathematical model of a `QueryPlan`.
pub struct QueryPlanView {
    pub sql: Seq<char>,
    pub buffer_sizes: Seq<i64>,
}

impl View for QueryPlan {
    type V = QueryPlanView;

    open spec fn view(&self) -> QueryPlanView {
        QueryPlanView { sql: self.sql@, buffer_sizes: self.buffer_sizes@ }
    }
}

/// The plan a source compiles to: a pure function of the source description.
pub open spec fn plan_spec(src: TM2SourceView) -> QueryPlanView {
    QueryPlanView {
        sql: plan_sql_spec(src),
        buffer_sizes: sorted_distinct(layer_buffers(src.layers)),
    }
}

impl TM2Source {
    /// Compiles the source into its query plan.
    pub fn compile(&self) -> (r: QueryPlan)
        requires
            self@.wf(),
        ensures
            r@ == plan_spec(self@),
    {
        let sql = self.prepared_statement_sql();
        let buffer_sizes = self.buffer_slot_table();
        QueryPlan { sql, buffer_sizes }
    }
}

impl QueryPlan {
    /// How many scalar parameters the statement binds: six shared ones, then
    /// four per buffer slot.
    pub fn param_count(&self) -> (n: u64)
        requires
            self.buffer_sizes@.len() <= 0x1000_0000,
        ensures
            n == 6 + 4 * self.buffer_sizes@.len(),
    {
        6 + 4 * (self.buffer_sizes.len() as u64)
    }
}

/// Law: buffer-size deduplication. The slot table of any layer sequence is
/// strictly ascending, repeats no size, and mentions exactly the sizes the
/// layers request — so a plan for `n` layers sharing `k` distinct buffer
/// sizes binds exactly `k` buffered-envelope groups, not `n`.
pub proof fn lemma_buffer_dedup(layers: Seq<DataLayerView>)
    ensures
        strictly_sorted(sorted_distinct(layer_buffers(layers))),
        sorted_distinct(layer_buffers(layers)).no_duplicates(),
        forall|x: i64|
            sorted_distinct(layer_buffers(layers)).contains(x) <==> layer_buffers(
                layers,
            ).contains(x),
        sorted_distinct(layer_buffers(layers)).len() == layer_buffers(layers).to_set().len(),
{
    let b = layer_buffers(layers);
    let t = sorted_distinct(b);
    lemma_sorted_distinct(b);
    assert forall|i: int, j: int|
        0 <= i < t.len() && 0 <= j < t.len() && i != j implies t[i] != t[j] by {
        if i < j {
            assert(t[i] < t[j]);
        } else {
            assert(t[j] < t[i]);
        }
    }
    assert(t.no_duplicates());
    assert(t.to_set() =~= b.to_set());
    t.unique_seq_to_set();
}

proof fn lemma_envelope_ref_chars(base: int)
    ensures
        envelope_ref_spec(base).len() > 0,
        envelope_ref_spec(base)[0] == 'S',
        forall|j: int|
            0 <= j < envelope_ref_spec(base).len() ==> (#[trigger] envelope_ref_spec(base)[j])
                != '!' && envelope_ref_spec(base)[j] != 'z',
{
    reveal_strlit("ST_MakeEnvelope($");
    reveal_strlit(", $");
    reveal_strlit(", 3857)");
    lemma_dec_digits(base);
    lemma_dec_digits(base + 1);
    lemma_dec_digits(base + 2);
    lemma_dec_digits(base + 3);
    let a = "ST_MakeEnvelope($"@;
    let c = ", $"@;
    let z = ", 3857)"@;
    let d0 = dec_spec(base);
    let d1 = dec_spec(base + 1);
    let d2 = dec_spec(base + 2);
    let d3 = dec_spec(base + 3);
    let env = envelope_ref_spec(base);
    assert(env == a + d0 + c + d1 + c + d2 + c + d3 + z);
    assert forall|j: int|
        0 <= j < env.len() implies (#[trigger] env[j]) != '!' && env[j] != 'z' by {
        let n0 = a.len();
        let n1 = n0 + d0.len();
        let n2 = n1 + c.len();
        let n3 = n2 + d1.len();
        let n4 = n3 + c.len();
        let n5 = n4 + d2.len();
        let n6 = n5 + c.len();
        let n7 = n6 + d3.len();
        if j < n0 {
            assert(env[j] == a[j]);
        } else if j < n1 {
            assert(env[j] == d0[j - n0]);
        } else if j < n2 {
            assert(env[j] == c[j - n1]);
        } else if j < n3 {
            assert(env[j] == d1[j - n2]);
        } else if j < n4 {
            assert(env[j] == c[j - n3]);
        } else if j < n5 {
            assert(env[j] == d2[j - n4]);
        } else if j < n6 {
            assert(env[j] == c[j - n5]);
        } else if j < n7 {
            assert(env[j] == d3[j - n6]);
        } else {
            assert(env[j] == z[j - n7]);
        }
    }
}

/// Law: round-trip template substitution. Whatever the layer's template
/// held, the rewritten template contains no occurrence of any of the four
/// placeholder tokens: each is substituted away at its own step, and no
/// later replacement text can recreate one.
pub proof fn lemma_placeholders_removed(l: DataLayerView, slots: Seq<i64>)
    ensures
        !occurs(rewritten_template(l, slots), "!bbox!"@),
        !occurs(rewritten_template(l, slots), "!bbox_nobuffer!"@),
        !occurs(rewritten_template(l, slots), "z(!scale_denominator!)"@),
        !occurs(rewritten_template(l, slots), "!pixel_width!"@),
{
    reveal_strlit("!bbox!");
    reveal_strlit("!bbox_nobuffer!");
    reveal_strlit("z(!scale_denominator!)");
    reveal_strlit("!pixel_width!");
    reveal_strlit("$5");
    reveal_strlit("$6");
    let q1 = replace_spec(l.table, "geometry"@, geom_call_spec(l.buffer_size as int));
    let q2 = replace_spec(q1, "!bbox_nobuffer!"@, envelope_ref_spec(1));
    let q3 = replace_spec(q2, "z(!scale_denominator!)"@, "$5"@);
    let q4 = replace_spec(q3, "!pixel_width!"@, "$6"@);
    let base = slot_param_base(slot_index(slots, l.buffer_size));
    let envb = envelope_ref_spec(base);
    lemma_envelope_ref_chars(1);
    lemma_envelope_ref_chars(base);
    lemma_replace_leaves_no_occurrence(
        q1,
        "!bbox_nobuffer!"@,
        envelope_ref_spec(1),
        "!bbox_nobuffer!"@,
    );
    lemma_replace_leaves_no_occurrence(q2, "z(!scale_denominator!)"@, "$5"@, "!bbox_nobuffer!"@);
    lemma_replace_leaves_no_occurrence(q3, "!pixel_width!"@, "$6"@, "!bbox_nobuffer!"@);
    lemma_replace_leaves_no_occurrence(q4, "!bbox!"@, envb, "!bbox_nobuffer!"@);
    lemma_replace_leaves_no_occurrence(
        q2,
        "z(!scale_denominator!)"@,
        "$5"@,
        "z(!scale_denominator!)"@,
    );
    lemma_replace_leaves_no_occurrence(q3, "!pixel_width!"@, "$6"@, "z(!scale_denominator!)"@);
    lemma_replace_leaves_no_occurrence(q4, "!bbox!"@, envb, "z(!scale_denominator!)"@);
    lemma_replace_leaves_no_occurrence(q3, "!pixel_width!"@, "$6"@, "!pixel_width!"@);
    lemma_replace_leaves_no_occurrence(q4, "!bbox!"@, envb, "!pixel_width!"@);
    lemma_replace_leaves_no_occurrence(q4, "!bbox!"@, envb, "!bbox!"@);
}

/// Law: the slot assignment is independent of the order in which the layers'
/// buffer sizes are gathered — any two gatherings that mention the same
/// sizes yield the same slot table, hence byte-identical parameter layouts.
pub proof fn lemma_slot_assignment_order_independent(a: Seq<i64>, b: Seq<i64>)
    requires
        forall|x: i64| a.contains(x) <==> b.contains(x),
    ensures
        sorted_distinct(a) == sorted_distinct(b),
{
    lemma_sorted_distinct(a);
    lemma_sorted_distinct(b);
    assert forall|x: i64|
        sorted_distinct(a).contains(x) <==> sorted_distinct(b).contains(x) by {
        assert(sorted_distinct(a).contains(x) <==> a.contains(x));
        assert(sorted_distinct(b).contains(x) <==> b.contains(x));
    }
    lemma_strictly_sorted_unique(sorted_distinct(a), sorted_distinct(b));
}

proof fn lemma_find_last_index(s: Seq<char>, c: char)
    requires
        find_last_spec(s, c) >= 0,
    ensures
        find_last_spec(s, c) < s.len(),
        s[find_last_spec(s, c)] == c,
    decreases s.len(),
{
    if s.len() > 0 && s.last() != c {
        lemma_find_last_index(s.drop_last(), c);
    }
}

} // verus!
