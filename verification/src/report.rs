//! The printed result: the full JSON document, or the chosen fields.
//!
//! Numbers that come from floating-point values (coordinates, distances) are
//! given here already as JSON number text.
use vstd::prelude::*;
use crate::cli;
use crate::cli::OutputField;
use crate::coords::CoordinateText;
use crate::number;
use crate::roads::{RoadMatch, RoadSegment};
use crate::text;
use crate::zones::{MatchType, Zone, ZoneMatch};

verus! {

// ---------------------------------------------------------------------------
// JSON strings
// ---------------------------------------------------------------------------

/// How a character is written inside a JSON string.
pub open spec fn escape_char(c: char) -> Seq<char> {
    if c == '\\' {
        seq!['\\', '\\']
    } else if c == '"' {
        seq!['\\', '"']
    } else if c == '\n' {
        seq!['\\', 'n']
    } else if c == '\r' {
        seq!['\\', 'r']
    } else if c == '\t' {
        seq!['\\', 't']
    } else {
        seq![c]
    }
}

/// `s` as written inside a JSON string: backslash, quote, newline, carriage
/// return and tab escaped, all else as it is.
pub open spec fn escape(s: Seq<char>) -> Seq<char>
    decreases s.len(),
{
    if s.len() == 0 {
        seq![]
    } else {
        escape_char(s[0]) + escape(s.drop_first())
    }
}

/// The character that the escape `\c` stands for.
pub open spec fn unescape_char(c: char) -> char {
    if c == 'n' {
        '\n'
    } else if c == 'r' {
        '\r'
    } else if c == 't' {
        '\t'
    } else {
        c
    }
}

/// The text that a JSON reader takes the string body `t` to hold.
pub open spec fn unescape(t: Seq<char>) -> Seq<char>
    decreases t.len(),
{
    if t.len() == 0 {
        seq![]
    } else if t[0] == '\\' && t.len() >= 2 {
        seq![unescape_char(t[1])] + unescape(t.skip(2))
    } else {
        seq![t[0]] + unescape(t.skip(1))
    }
}

/// Escaping loses nothing: reading an escaped string gives the text back.
pub proof fn lemma_escape_round_trip(s: Seq<char>)
    ensures
        unescape(escape(s)) == s,
    decreases s.len(),
{
    if s.len() > 0 {
        let c = s[0];
        let rest = s.drop_first();
        lemma_escape_round_trip(rest);
        let e = escape(rest);
        let h = escape_char(c);
        let t = h + e;
        assert(escape(s) == t);
        if c == '\\' || c == '"' || c == '\n' || c == '\r' || c == '\t' {
            assert(h.len() == 2 && h[0] == '\\');
            assert(t[0] == '\\' && t[1] == h[1]);
            assert(unescape_char(h[1]) == c);
            assert(t.skip(2) =~= e);
            assert(unescape(t) == seq![c] + unescape(e));
        } else {
            assert(h == seq![c]);
            assert(t[0] == c);
            assert(t.skip(1) =~= e);
            assert(unescape(t) == seq![c] + unescape(e));
        }
        assert(s =~= seq![c] + rest);
    }
}

/// Escaping writes no bare quote: every `"` in the output is escaped.
pub proof fn lemma_escape_quotes(s: Seq<char>)
    ensures
        forall|i: int| 0 <= i < escape(s).len() && #[trigger] escape(s)[i] == '"' ==> i > 0 && escape(s)[i - 1] == '\\',
    decreases s.len(),
{
    if s.len() > 0 {
        lemma_escape_quotes(s.drop_first());
        let head = escape_char(s[0]);
        let e = escape(s.drop_first());
        assert(escape(s) == head + e);
        assert forall|i: int| 0 <= i < escape(s).len() && #[trigger] escape(s)[i] == '"' implies i > 0 && escape(s)[i - 1] == '\\' by {
            if i >= head.len() {
                assert(escape(s)[i] == e[i - head.len()]);
                if i - head.len() > 0 {
                    assert(escape(s)[i - 1] == e[i - head.len() - 1]);
                }
            }
        }
    }
}

/// Appends `s` as written inside a JSON string.
fn push_escaped(out: &mut Vec<char>, s: &str)
    ensures
        final(out)@ == old(out)@ + escape(s@),
{
    let v = text::chars_of(s);
    let mut i: usize = 0;
    assert(v@.skip(0) =~= v@);
    while i < v.len()
        invariant
            i <= v@.len(),
            v@ == s@,
            out@ + escape(v@.skip(i as int)) == old(out)@ + escape(s@),
        decreases v@.len() - i,
    {
        let c = v[i];
        let ghost before = out@;
        assert(v@.skip(i as int).drop_first() =~= v@.skip(i + 1));
        assert(v@.skip(i as int)[0] == c);
        if c == '\\' {
            out.push('\\');
            out.push('\\');
        } else if c == '"' {
            out.push('\\');
            out.push('"');
        } else if c == '\n' {
            out.push('\\');
            out.push('n');
        } else if c == '\r' {
            out.push('\\');
            out.push('r');
        } else if c == '\t' {
            out.push('\\');
            out.push('t');
        } else {
            out.push(c);
        }
        assert(out@ =~= before + escape_char(c));
        i += 1;
    }
    assert(v@.skip(v@.len() as int) =~= seq![]);
}

/// `value` as written inside a JSON string.
pub fn json_escape(value: &str) -> (r: String)
    ensures
        r@ == escape(value@),
{
    let mut out: Vec<char> = Vec::new();
    push_escaped(&mut out, value);
    text::string_of(out.as_slice())
}

/// A JSON string holding `value`, or `null`.
pub open spec fn string_or_null(value: Option<Seq<char>>) -> Seq<char> {
    match value {
        Some(v) => seq!['"'] + escape(v) + seq!['"'],
        None => "null"@,
    }
}

fn push_string_or_null(out: &mut Vec<char>, value: Option<&str>)
    ensures
        final(out)@ == old(out)@ + string_or_null(
            match value {
                Some(v) => Some(v@),
                None => None,
            },
        ),
{
    match value {
        Some(v) => {
            out.push('"');
            push_escaped(out, v);
            out.push('"');
        },
        None => text::push_str(out, "null"),
    }
}

/// A JSON string holding `value`, or `null`.
pub fn json_string_or_null(value: Option<&str>) -> (r: String)
    ensures
        r@ == string_or_null(
            match value {
                Some(v) => Some(v@),
                None => None,
            },
        ),
{
    let mut out: Vec<char> = Vec::new();
    push_string_or_null(&mut out, value);
    text::string_of(out.as_slice())
}

// ---------------------------------------------------------------------------
// Selected fields
// ---------------------------------------------------------------------------

/// The indices in a lookup result are those of the data.
pub open spec fn result_in_range(
    zones: Seq<Zone>,
    matches: Seq<ZoneMatch>,
    segments: Seq<RoadSegment>,
    road: Option<RoadMatch>,
    intersection: Option<RoadMatch>,
) -> bool {
    &&& forall|j: int|
        0 <= j < matches.len() ==> #[trigger] matches[j].zone < zones.len()
    &&& road matches Some(m) ==> m.segment < segments.len()
    &&& intersection matches Some(m) ==> m.segment < segments.len()
}

/// The value of one field: the code or display name of the first (smallest)
/// zone (its code where its display name is missing or empty), or the street name of the
/// road or of the crossing road.
pub open spec fn field_value(
    field: OutputField,
    zones: Seq<Zone>,
    matches: Seq<ZoneMatch>,
    segments: Seq<RoadSegment>,
    road: Option<RoadMatch>,
    intersection: Option<RoadMatch>,
) -> Option<Seq<char>> {
    match field {
        OutputField::ZoneCode => if matches.len() > 0 {
            Some(zones[matches[0].zone as int].name@)
        } else {
            None
        },
        OutputField::ZoneName => if matches.len() > 0 {
            let z = zones[matches[0].zone as int];
            match z.display_name {
                Some(d) => if d@.len() > 0 {
                    Some(d@)
                } else {
                    Some(z.name@)
                },
                None => Some(z.name@),
            }
        } else {
            None
        },
        OutputField::Road => match road {
            Some(m) => Some(segments[m.segment as int].street_name@),
            None => None,
        },
        OutputField::Intersection => match intersection {
            Some(m) => Some(segments[m.segment as int].street_name@),
            None => None,
        },
    }
}

/// The value of one field.
pub fn selected_field_value(
    field: OutputField,
    zones: &Vec<Zone>,
    zone_matches: &Vec<ZoneMatch>,
    segments: &Vec<RoadSegment>,
    road: Option<RoadMatch>,
    intersection: Option<RoadMatch>,
) -> (r: Option<String>)
    requires
        result_in_range(zones@, zone_matches@, segments@, road, intersection),
    ensures
        opt_string_view(r) == field_value(field, zones@, zone_matches@, segments@, road, intersection),
{
    match field {
        OutputField::ZoneCode => {
            if zone_matches.len() > 0 {
                Some(zones[zone_matches[0].zone].name.clone())
            } else {
                None
            }
        },
        OutputField::ZoneName => {
            if zone_matches.len() > 0 {
                let zone = &zones[zone_matches[0].zone];
                match &zone.display_name {
                    Some(d) => if !d.as_str().is_empty() {
                        Some(d.clone())
                    } else {
                        Some(zone.name.clone())
                    },
                    None => Some(zone.name.clone()),
                }
            } else {
                None
            }
        },
        OutputField::Road => match road {
            Some(m) => Some(segments[m.segment].street_name.clone()),
            None => None,
        },
        OutputField::Intersection => match intersection {
            Some(m) => Some(segments[m.segment].street_name.clone()),
            None => None,
        },
    }
}

/// The view of an optional string.
pub open spec fn opt_string_view(o: Option<String>) -> Option<Seq<char>> {
    match o {
        Some(s) => Some(s@),
        None => None,
    }
}

/// The line for field `k` of `fields` in the multi-field output.
pub open spec fn field_line(
    fields: Seq<OutputField>,
    k: int,
    zones: Seq<Zone>,
    matches: Seq<ZoneMatch>,
    segments: Seq<RoadSegment>,
    road: Option<RoadMatch>,
    intersection: Option<RoadMatch>,
) -> Seq<char> {
    "  \""@ + cli::field_key(fields[k]) + "\": "@ + string_or_null(
        field_value(fields[k], zones, matches, segments, road, intersection),
    ) + (if k + 1 == fields.len() {
        seq![]
    } else {
        seq![',']
    }) + seq!['\n']
}

/// The lines of the first `n` fields.
pub open spec fn field_lines(
    fields: Seq<OutputField>,
    n: int,
    zones: Seq<Zone>,
    matches: Seq<ZoneMatch>,
    segments: Seq<RoadSegment>,
    road: Option<RoadMatch>,
    intersection: Option<RoadMatch>,
) -> Seq<char>
    decreases n,
{
    if n <= 0 {
        seq![]
    } else {
        field_lines(fields, n - 1, zones, matches, segments, road, intersection) + field_line(
            fields,
            n - 1,
            zones,
            matches,
            segments,
            road,
            intersection,
        )
    }
}

/// The printed fields: a single field prints its value alone (an empty line
/// where there is none); several print as a JSON object of strings and
/// `null`s, in the order chosen.
pub open spec fn fields_output(
    fields: Seq<OutputField>,
    zones: Seq<Zone>,
    matches: Seq<ZoneMatch>,
    segments: Seq<RoadSegment>,
    road: Option<RoadMatch>,
    intersection: Option<RoadMatch>,
) -> Seq<char> {
    if fields.len() == 1 {
        let v = match field_value(fields[0], zones, matches, segments, road, intersection) {
            Some(v) => v,
            None => seq![],
        };
        v + seq!['\n']
    } else {
        "{\n"@ + field_lines(fields, fields.len() as int, zones, matches, segments, road, intersection)
            + "}\n"@
    }
}

/// The printed text for the chosen fields.
pub fn render_selected_fields(
    fields: &Vec<OutputField>,
    zones: &Vec<Zone>,
    zone_matches: &Vec<ZoneMatch>,
    segments: &Vec<RoadSegment>,
    road: Option<RoadMatch>,
    intersection: Option<RoadMatch>,
) -> (r: String)
    requires
        result_in_range(zones@, zone_matches@, segments@, road, intersection),
    ensures
        r@ == fields_output(fields@, zones@, zone_matches@, segments@, road, intersection),
{
    let mut out: Vec<char> = Vec::new();
    if fields.len() == 1 {
        match selected_field_value(fields[0], zones, zone_matches, segments, road, intersection) {
            Some(v) => text::push_str(&mut out, v.as_str()),
            None => {},
        }
        out.push('\n');
        return text::string_of(out.as_slice());
    }
    text::push_str(&mut out, "{\n");
    let ghost head = out@;
    let mut k: usize = 0;
    while k < fields.len()
        invariant
            k <= fields@.len(),
            result_in_range(zones@, zone_matches@, segments@, road, intersection),
            head == "{\n"@,
            out@ == head + field_lines(
                fields@,
                k as int,
                zones@,
                zone_matches@,
                segments@,
                road,
                intersection,
            ),
        decreases fields@.len() - k,
    {
        let field = fields[k];
        let value = selected_field_value(field, zones, zone_matches, segments, road, intersection);
        let ghost before = out@;
        text::push_str(&mut out, "  \"");
        text::push_str(&mut out, cli::output_field_key(field));
        text::push_str(&mut out, "\": ");
        match &value {
            Some(v) => push_string_or_null(&mut out, Some(v.as_str())),
            None => push_string_or_null(&mut out, None),
        }
        if k + 1 != fields.len() {
            out.push(',');
        }
        out.push('\n');
        assert(out@ =~= before + field_line(
            fields@,
            k as int,
            zones@,
            zone_matches@,
            segments@,
            road,
            intersection,
        ));
        k += 1;
    }
    text::push_str(&mut out, "}\n");
    text::string_of(out.as_slice())
}

// ---------------------------------------------------------------------------
// The full document
// ---------------------------------------------------------------------------

/// A road in the printed result: the match and its distance as JSON number
/// text.
pub struct RoadReport {
    pub road: RoadMatch,
    pub distance: String,
}

/// How a match type is printed.
pub open spec fn match_type_text(t: MatchType) -> Seq<char> {
    match t {
        MatchType::Exact3d => "3d"@,
        MatchType::XyFallback => "xy_fallback"@,
    }
}

/// The line for zone match `k`.
pub open spec fn zone_line(zones: Seq<Zone>, matches: Seq<ZoneMatch>, k: int) -> Seq<char> {
    let z = zones[matches[k].zone as int];
    "    { \"name\": \""@ + escape(z.name@) + "\", \"displayName\": "@ + string_or_null(
        crate::coords::opt_view(z.display_name),
    ) + ", \"match\": \""@ + match_type_text(matches[k].match_type) + "\" }"@ + (if k + 1
        == matches.len() {
        seq![]
    } else {
        seq![',']
    }) + seq!['\n']
}

/// The lines of the first `n` zone matches.
pub open spec fn zone_lines(zones: Seq<Zone>, matches: Seq<ZoneMatch>, n: int) -> Seq<char>
    decreases n,
{
    if n <= 0 {
        seq![]
    } else {
        zone_lines(zones, matches, n - 1) + zone_line(zones, matches, n - 1)
    }
}

/// The object that describes a road.
pub open spec fn road_object(segments: Seq<RoadSegment>, road: RoadMatch, distance: Seq<char>) -> Seq<
    char,
> {
    let s = segments[road.segment as int];
    "{ \"name\": \""@ + escape(s.street_name@) + "\", \"distance\": "@ + distance
        + ", \"from\": \""@ + number::decimal(s.start_area_id as nat) + seq![':']
        + number::decimal(s.start_node_id as nat) + "\", \"to\": \""@ + number::decimal(
        s.end_node_id as nat,
    ) + "\" }"@
}

/// The line for the road (`key` is `road` or `intersection`).
pub open spec fn road_line(
    key: Seq<char>,
    segments: Seq<RoadSegment>,
    road: Option<(RoadMatch, Seq<char>)>,
    last: bool,
) -> Seq<char> {
    let value = match road {
        Some((m, d)) => road_object(segments, m, d),
        None => "null"@,
    };
    "  \""@ + key + "\": "@ + value + (if last {
        seq![]
    } else {
        seq![',']
    }) + seq!['\n']
}

/// The view of an optional road report.
pub open spec fn report_view(r: Option<RoadReport>) -> Option<(RoadMatch, Seq<char>)> {
    match r {
        Some(rr) => Some((rr.road, rr.distance@)),
        None => None,
    }
}

/// The full JSON document: the coordinates, the zone matches, the road and
/// the crossing road.
pub open spec fn json_document(
    coordinates: CoordinateText,
    zones: Seq<Zone>,
    matches: Seq<ZoneMatch>,
    segments: Seq<RoadSegment>,
    road: Option<(RoadMatch, Seq<char>)>,
    intersection: Option<(RoadMatch, Seq<char>)>,
) -> Seq<char> {
    "{\n"@ + "  \"coordinates\": { \"x\": "@ + coordinates.x@ + ", \"y\": "@ + coordinates.y@
        + ", \"z\": "@ + coordinates.z@ + " },\n"@ + "  \"zones\": [\n"@ + zone_lines(
        zones,
        matches,
        matches.len() as int,
    ) + "  ],\n"@ + road_line("road"@, segments, road, false) + road_line(
        "intersection"@,
        segments,
        intersection,
        true,
    ) + "}\n"@
}

fn push_road_line(
    out: &mut Vec<char>,
    key: &str,
    segments: &Vec<RoadSegment>,
    road: &Option<RoadReport>,
    last: bool,
)
    requires
        road matches Some(rr) ==> rr.road.segment < segments@.len(),
    ensures
        final(out)@ == old(out)@ + road_line(key@, segments@, report_view(*road), last),
{
    let ghost start = out@;
    text::push_str(out, "  \"");
    text::push_str(out, key);
    text::push_str(out, "\": ");
    match road {
        Some(rr) => {
            let s = &segments[rr.road.segment];
            let ghost mid = out@;
            text::push_str(out, "{ \"name\": \"");
            push_escaped(out, s.street_name.as_str());
            text::push_str(out, "\", \"distance\": ");
            text::push_str(out, rr.distance.as_str());
            text::push_str(out, ", \"from\": \"");
            let area = number::decimal_u16(s.start_area_id);
            text::push_all(out, area.as_slice());
            out.push(':');
            let from = number::decimal_u16(s.start_node_id);
            text::push_all(out, from.as_slice());
            text::push_str(out, "\", \"to\": \"");
            let to = number::decimal_u16(s.end_node_id);
            text::push_all(out, to.as_slice());
            text::push_str(out, "\" }");
            assert(out@ =~= mid + road_object(segments@, rr.road, rr.distance@));
        },
        None => text::push_str(out, "null"),
    }
    if !last {
        out.push(',');
    }
    out.push('\n');
    assert(out@ =~= start + road_line(key@, segments@, report_view(*road), last));
}

fn push_zone_line(out: &mut Vec<char>, zones: &Vec<Zone>, zone_matches: &Vec<ZoneMatch>, k: usize)
    requires
        k < zone_matches@.len(),
        zone_matches@[k as int].zone < zones@.len(),
    ensures
        final(out)@ == old(out)@ + zone_line(zones@, zone_matches@, k as int),
{
    let m = zone_matches[k];
    let zone = &zones[m.zone];
    let ghost before = out@;
    text::push_str(out, "    { \"name\": \"");
    push_escaped(out, zone.name.as_str());
    text::push_str(out, "\", \"displayName\": ");
    match &zone.display_name {
        Some(d) => push_string_or_null(out, Some(d.as_str())),
        None => push_string_or_null(out, None),
    }
    text::push_str(out, ", \"match\": \"");
    match m.match_type {
        MatchType::Exact3d => text::push_str(out, "3d"),
        MatchType::XyFallback => text::push_str(out, "xy_fallback"),
    }
    text::push_str(out, "\" }");
    if zone_matches.len() - 1 != k {
        out.push(',');
    }
    out.push('\n');
    assert(out@ =~= before + zone_line(zones@, zone_matches@, k as int));
}

/// The full JSON document. `coordinates` and the distances are JSON number
/// text.
pub fn render_json(
    coordinates: &CoordinateText,
    zones: &Vec<Zone>,
    zone_matches: &Vec<ZoneMatch>,
    segments: &Vec<RoadSegment>,
    road: &Option<RoadReport>,
    intersection: &Option<RoadReport>,
) -> (r: String)
    requires
        forall|j: int| 0 <= j < zone_matches@.len() ==> #[trigger] zone_matches@[j].zone < zones@.len(),
        road matches Some(rr) ==> rr.road.segment < segments@.len(),
        intersection matches Some(rr) ==> rr.road.segment < segments@.len(),
    ensures
        r@ == json_document(
            *coordinates,
            zones@,
            zone_matches@,
            segments@,
            report_view(*road),
            report_view(*intersection),
        ),
{
    let mut out: Vec<char> = Vec::new();
    text::push_str(&mut out, "{\n");
    text::push_str(&mut out, "  \"coordinates\": { \"x\": ");
    text::push_str(&mut out, coordinates.x.as_str());
    text::push_str(&mut out, ", \"y\": ");
    text::push_str(&mut out, coordinates.y.as_str());
    text::push_str(&mut out, ", \"z\": ");
    text::push_str(&mut out, coordinates.z.as_str());
    text::push_str(&mut out, " },\n");
    text::push_str(&mut out, "  \"zones\": [\n");
    let ghost head = out@;
    let mut k: usize = 0;
    while k < zone_matches.len()
        invariant
            k <= zone_matches@.len(),
            forall|j: int|
                0 <= j < zone_matches@.len() ==> #[trigger] zone_matches@[j].zone < zones@.len(),
            out@ == head + zone_lines(zones@, zone_matches@, k as int),
        decreases zone_matches@.len() - k,
    {
        push_zone_line(&mut out, zones, zone_matches, k);
        k += 1;
    }
    text::push_str(&mut out, "  ],\n");
    push_road_line(&mut out, "road", segments, road, false);
    push_road_line(&mut out, "intersection", segments, intersection, true);
    text::push_str(&mut out, "}\n");
    text::string_of(out.as_slice())
}

// ---------------------------------------------------------------------------
// Laws
// ---------------------------------------------------------------------------

/// The zone fields come from the first zone match (the smallest box, in the
/// order `find_zones` gives): the zone code is its zone's code, the zone name
/// its display name, or its code where the display name is missing or empty;
/// with no zone match both are empty. The road fields are the street names
/// of the road and of the crossing road.
pub proof fn law_fields_from_first_zone_and_roads(
    zones: Seq<Zone>,
    matches: Seq<ZoneMatch>,
    segments: Seq<RoadSegment>,
    road: Option<RoadMatch>,
    intersection: Option<RoadMatch>,
)
    ensures
        matches.len() > 0 ==> field_value(
            OutputField::ZoneCode,
            zones,
            matches,
            segments,
            road,
            intersection,
        ) == Some(zones[matches[0].zone as int].name@),
        matches.len() > 0 ==> field_value(
            OutputField::ZoneName,
            zones,
            matches,
            segments,
            road,
            intersection,
        ) == Some(
            match zones[matches[0].zone as int].display_name {
                Some(d) => if d@.len() == 0 {
                    zones[matches[0].zone as int].name@
                } else {
                    d@
                },
                None => zones[matches[0].zone as int].name@,
            },
        ),
        matches.len() == 0 ==> field_value(
            OutputField::ZoneCode,
            zones,
            matches,
            segments,
            road,
            intersection,
        ) is None && field_value(OutputField::ZoneName, zones, matches, segments, road, intersection)
            is None,
        field_value(OutputField::Road, zones, matches, segments, road, intersection) == match road {
            Some(m) => Some(segments[m.segment as int].street_name@),
            None => None::<Seq<char>>,
        },
        field_value(OutputField::Intersection, zones, matches, segments, road, intersection)
            == match intersection {
            Some(m) => Some(segments[m.segment as int].street_name@),
            None => None::<Seq<char>>,
        },
{
}

/// With the zone matches in `find_zones` order, the zone code printed is that
/// of a zone whose matched box is no larger than any other matched box.
pub proof fn law_zone_code_is_smallest_box(
    zones: Seq<Zone>,
    matches: Seq<ZoneMatch>,
    segments: Seq<RoadSegment>,
    road: Option<RoadMatch>,
    intersection: Option<RoadMatch>,
)
    requires
        matches.len() > 0,
        forall|j: int| 0 <= j < matches.len() ==> crate::zones::names_box(zones, #[trigger] matches[j]),
        forall|j: int|
            0 <= j < matches.len() ==> crate::zones::volume_ordered(zones, #[trigger] matches[j]),
        forall|i: int, j: int|
            0 <= i < j < matches.len() ==> crate::zones::before(
                zones,
                #[trigger] matches[i],
                #[trigger] matches[j],
            ),
    ensures
        ({
            let first = matches[0];
            &&& field_value(OutputField::ZoneCode, zones, matches, segments, road, intersection)
                == Some(zones[first.zone as int].name@)
            &&& forall|j: int|
                0 <= j < matches.len() ==> number::le(
                    zones[first.zone as int].bounds@[first.bounds as int].volume,
                    zones[(#[trigger] matches[j]).zone as int].bounds@[matches[j].bounds as int].volume,
                )
        }),
{
    assert forall|j: int| 0 <= j < matches.len() implies number::le(
        zones[matches[0].zone as int].bounds@[matches[0].bounds as int].volume,
        zones[(#[trigger] matches[j]).zone as int].bounds@[matches[j].bounds as int].volume,
    ) by {
        if j > 0 {
            crate::zones::law_before_orders_by_volume(zones, matches[0], matches[j]);
        }
    }
}

/// The JSON document begins with the coordinates as given.
pub proof fn law_json_begins_with_coordinates(
    coordinates: CoordinateText,
    zones: Seq<Zone>,
    matches: Seq<ZoneMatch>,
    segments: Seq<RoadSegment>,
    road: Option<(RoadMatch, Seq<char>)>,
    intersection: Option<(RoadMatch, Seq<char>)>,
)
    ensures
        ({
            let doc = json_document(coordinates, zones, matches, segments, road, intersection);
            let head = "{\n"@ + "  \"coordinates\": { \"x\": "@ + coordinates.x@ + ", \"y\": "@
                + coordinates.y@ + ", \"z\": "@ + coordinates.z@ + " },\n"@;
            head.len() <= doc.len() && doc.subrange(0, head.len() as int) == head
        }),
{
    let doc = json_document(coordinates, zones, matches, segments, road, intersection);
    let head = "{\n"@ + "  \"coordinates\": { \"x\": "@ + coordinates.x@ + ", \"y\": "@
        + coordinates.y@ + ", \"z\": "@ + coordinates.z@ + " },\n"@;
    let rest = "  \"zones\": [\n"@ + zone_lines(zones, matches, matches.len() as int) + "  ],\n"@
        + road_line("road"@, segments, road, false) + road_line(
        "intersection"@,
        segments,
        intersection,
        true,
    ) + "}\n"@;
    assert(doc =~= head + rest);
    assert(doc.subrange(0, head.len() as int) =~= head);
}

/// The object printed for a road: its street name (escaped), the distance
/// text given for it, and where its segment runs from (area and node) and to.
pub open spec fn road_text(segments: Seq<RoadSegment>, m: RoadMatch, distance: Seq<char>) -> Seq<
    char,
> {
    let s = segments[m.segment as int];
    "{ \"name\": \""@ + escape(s.street_name@) + "\", \"distance\": "@ + distance + ", \"from\": \""@
        + number::decimal(s.start_area_id as nat) + seq![':'] + number::decimal(
        s.start_node_id as nat,
    ) + "\", \"to\": \""@ + number::decimal(s.end_node_id as nat) + "\" }"@
}

/// The JSON document ends with the crossing road: its object with its own
/// distance text, or `null` where there is none.
pub proof fn law_json_ends_with_crossing_road(
    coordinates: CoordinateText,
    zones: Seq<Zone>,
    matches: Seq<ZoneMatch>,
    segments: Seq<RoadSegment>,
    road: Option<(RoadMatch, Seq<char>)>,
    intersection: Option<(RoadMatch, Seq<char>)>,
)
    ensures
        ({
            let doc = json_document(coordinates, zones, matches, segments, road, intersection);
            let tail = "  \""@ + "intersection"@ + "\": "@ + match intersection {
                Some((m, d)) => road_text(segments, m, d),
                None => "null"@,
            } + seq!['\n'] + "}\n"@;
            tail.len() <= doc.len() && doc.subrange(doc.len() - tail.len(), doc.len() as int)
                == tail
        }),
{
    let doc = json_document(coordinates, zones, matches, segments, road, intersection);
    let tail = "  \""@ + "intersection"@ + "\": "@ + match intersection {
        Some((m, d)) => road_text(segments, m, d),
        None => "null"@,
    } + seq!['\n'] + "}\n"@;
    let head = "{\n"@ + "  \"coordinates\": { \"x\": "@ + coordinates.x@ + ", \"y\": "@
        + coordinates.y@ + ", \"z\": "@ + coordinates.z@ + " },\n"@ + "  \"zones\": [\n"@
        + zone_lines(zones, matches, matches.len() as int) + "  ],\n"@ + road_line(
        "road"@,
        segments,
        road,
        false,
    );
    assert(road_line("intersection"@, segments, intersection, true) + "}\n"@ =~= tail);
    assert(doc =~= head + tail);
    assert(doc.subrange(doc.len() - tail.len(), doc.len() as int) =~= tail);
}

/// The JSON document holds the road's line, just before the crossing road's:
/// its object with its own distance text, or `null` where there is none.
pub proof fn law_json_holds_road(
    coordinates: CoordinateText,
    zones: Seq<Zone>,
    matches: Seq<ZoneMatch>,
    segments: Seq<RoadSegment>,
    road: Option<(RoadMatch, Seq<char>)>,
    intersection: Option<(RoadMatch, Seq<char>)>,
)
    ensures
        ({
            let doc = json_document(coordinates, zones, matches, segments, road, intersection);
            let line = "  \""@ + "road"@ + "\": "@ + match road {
                Some((m, d)) => road_text(segments, m, d),
                None => "null"@,
            } + seq![','] + seq!['\n'];
            let after = road_line("intersection"@, segments, intersection, true) + "}\n"@;
            line.len() + after.len() <= doc.len() && doc.subrange(
                doc.len() - after.len() - line.len(),
                doc.len() - after.len(),
            ) == line
        }),
{
    let doc = json_document(coordinates, zones, matches, segments, road, intersection);
    let line = "  \""@ + "road"@ + "\": "@ + match road {
        Some((m, d)) => road_text(segments, m, d),
        None => "null"@,
    } + seq![','] + seq!['\n'];
    let after = road_line("intersection"@, segments, intersection, true) + "}\n"@;
    let head = "{\n"@ + "  \"coordinates\": { \"x\": "@ + coordinates.x@ + ", \"y\": "@
        + coordinates.y@ + ", \"z\": "@ + coordinates.z@ + " },\n"@ + "  \"zones\": [\n"@
        + zone_lines(zones, matches, matches.len() as int) + "  ],\n"@;
    assert(road_line("road"@, segments, road, false) =~= line);
    assert(doc =~= head + line + after);
    assert(doc.subrange(doc.len() - after.len() - line.len(), doc.len() - after.len()) =~= line);
}

} // verus!
