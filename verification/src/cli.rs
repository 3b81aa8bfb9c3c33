//! The command line: options, output field selection, and the error texts.
use vstd::prelude::*;
use crate::coords;
use crate::coords::{CoordinateError, CoordinateErrorModel, CoordinateInput, InputModel};
use crate::number;
use crate::text;

verus! {

// ---------------------------------------------------------------------------
// Output selection
// ---------------------------------------------------------------------------

/// A field that can be printed on its own.
#[derive(Clone, Copy, Debug, PartialEq, Eq, Structural)]
pub enum OutputField {
    ZoneCode,
    ZoneName,
    Road,
    Intersection,
}

/// What to print: the whole JSON document, or the chosen fields in order.
#[derive(Debug, PartialEq, Eq)]
pub enum OutputSelection {
    AllJson,
    Fields(Vec<OutputField>),
}

/// The model of an `OutputSelection`.
pub enum SelectionModel {
    AllJson,
    Fields(Seq<OutputField>),
}

impl View for OutputSelection {
    type V = SelectionModel;

    open spec fn view(&self) -> SelectionModel {
        match self {
            OutputSelection::AllJson => SelectionModel::AllJson,
            OutputSelection::Fields(v) => SelectionModel::Fields(v@),
        }
    }
}

/// Why an output selection was refused.
pub enum OutputError {
    /// A field between commas was empty.
    EmptyField,
    /// A field name that is not known (trimmed).
    InvalidField(String),
}

/// The model of an `OutputError`.
pub enum OutputErrorModel {
    EmptyField,
    InvalidField(Seq<char>),
}

impl View for OutputError {
    type V = OutputErrorModel;

    open spec fn view(&self) -> OutputErrorModel {
        match self {
            OutputError::EmptyField => OutputErrorModel::EmptyField,
            OutputError::InvalidField(s) => OutputErrorModel::InvalidField(s@),
        }
    }
}

/// The field that a name selects.
pub open spec fn field_named(p: Seq<char>) -> Option<OutputField> {
    if p == "zone-code"@ {
        Some(OutputField::ZoneCode)
    } else if p == "zone-name"@ {
        Some(OutputField::ZoneName)
    } else if p == "road"@ {
        Some(OutputField::Road)
    } else if p == "intersection"@ {
        Some(OutputField::Intersection)
    } else {
        None
    }
}

/// The fields named by the comma-separated pieces `ps` of `v` from index
/// `i` on, added to `acc` unless already there.
pub open spec fn fields_from(
    v: Seq<char>,
    ps: Seq<(int, int)>,
    i: int,
    acc: Seq<OutputField>,
) -> Result<Seq<OutputField>, OutputErrorModel>
    decreases ps.len() - i,
{
    if i < 0 || i >= ps.len() {
        Ok(acc)
    } else {
        let p = text::trim(text::span_text(v, ps[i]));
        if p.len() == 0 {
            Err(OutputErrorModel::EmptyField)
        } else {
            match field_named(p) {
                None => Err(OutputErrorModel::InvalidField(p)),
                Some(f) => fields_from(
                    v,
                    ps,
                    i + 1,
                    if acc.contains(f) {
                        acc
                    } else {
                        acc.push(f)
                    },
                ),
            }
        }
    }
}

/// The output selection that `--output v` asks for: `json` and `all` mean
/// the whole document; otherwise a comma-separated list of field names, each
/// kept once, in order of first mention.
pub open spec fn selection(v: Seq<char>) -> Result<SelectionModel, OutputErrorModel> {
    if v == "json"@ || v == "all"@ {
        Ok(SelectionModel::AllJson)
    } else {
        match fields_from(v, text::pieces(v, ','), 0, seq![]) {
            Ok(fs) => Ok(SelectionModel::Fields(fs)),
            Err(e) => Err(e),
        }
    }
}

/// Whether a list of fields holds no field twice.
pub open spec fn distinct(fs: Seq<OutputField>) -> bool {
    forall|i: int, j: int| 0 <= i < j < fs.len() ==> fs[i] != fs[j]
}

proof fn lemma_fields_from(v: Seq<char>, ps: Seq<(int, int)>, i: int, acc: Seq<OutputField>)
    requires
        distinct(acc),
        0 <= i,
    ensures
        fields_from(v, ps, i, acc) matches Ok(fs) ==> distinct(fs) && fs.len() >= acc.len() && (
        i < ps.len() ==> fs.len() > 0),
    decreases ps.len() - i,
{
    if i < ps.len() {
        let p = text::trim(text::span_text(v, ps[i]));
        if p.len() != 0 {
            if let Some(f) = field_named(p) {
                let next = if acc.contains(f) {
                    acc
                } else {
                    acc.push(f)
                };
                if !acc.contains(f) {
                    assert forall|a: int, b: int| 0 <= a < b < next.len() implies next[a]
                        != next[b] by {
                        if b == acc.len() {
                            assert(acc[a] == next[a]);
                        }
                    }
                    assert(next.len() > 0);
                } else {
                    assert(acc.len() > 0);
                }
                lemma_fields_from(v, ps, i + 1, next);
            }
        }
    }
}

/// Whether `f` is in `fields`.
fn has_field(fields: &Vec<OutputField>, f: OutputField) -> (r: bool)
    ensures
        r == fields@.contains(f),
{
    let mut i: usize = 0;
    while i < fields.len()
        invariant
            i <= fields@.len(),
            forall|j: int| 0 <= j < i ==> fields@[j] != f,
        decreases fields@.len() - i,
    {
        if fields[i] == f {
            assert(fields@[i as int] == f);
            return true;
        }
        i += 1;
    }
    false
}

/// Reads the value of `--output`. The fields of a selection are never empty
/// and never repeat.
pub fn parse_output_selection(value: &str) -> (r: Result<OutputSelection, OutputError>)
    ensures
        match selection(value@) {
            Ok(s) => r matches Ok(o) && o@ == s,
            Err(e) => r matches Err(e2) && e2@ == e,
        },
        r matches Ok(OutputSelection::Fields(fs)) ==> fs@.len() > 0 && distinct(fs@),
{
    let v = text::chars_of(value);
    if text::chars_are(v.as_slice(), "json") || text::chars_are(v.as_slice(), "all") {
        return Ok(OutputSelection::AllJson);
    }
    let ps = text::find_pieces(v.as_slice(), ',');
    let ghost psv = text::spans_view(ps@);
    let mut fields: Vec<OutputField> = Vec::new();
    let mut i: usize = 0;
    proof {
        lemma_fields_from(v@, psv, 0, seq![]);
    }
    while i < ps.len()
        invariant
            i <= ps@.len(),
            v@ == value@,
            !(v@ == "json"@ || v@ == "all"@),
            psv == text::spans_view(ps@),
            psv == text::pieces(v@, ','),
            forall|j: int| 0 <= j < ps@.len() ==> #[trigger] ps@[j].0 <= ps@[j].1 <= v@.len(),
            fields_from(v@, psv, i as int, fields@) == fields_from(v@, psv, 0, seq![]),
            distinct(fields@),
            i > 0 ==> fields@.len() > 0,
        decreases ps@.len() - i,
    {
        let (a, b) = ps[i];
        assert(psv[i as int] == (a as int, b as int));
        let piece = text::copy_range(v.as_slice(), a, b);
        let part = text::trimmed(piece.as_slice());
        if part.len() == 0 {
            return Err(OutputError::EmptyField);
        }
        let field = if text::chars_are(part.as_slice(), "zone-code") {
            OutputField::ZoneCode
        } else if text::chars_are(part.as_slice(), "zone-name") {
            OutputField::ZoneName
        } else if text::chars_are(part.as_slice(), "road") {
            OutputField::Road
        } else if text::chars_are(part.as_slice(), "intersection") {
            OutputField::Intersection
        } else {
            assert(field_named(part@) is None);
            return Err(OutputError::InvalidField(text::string_of(part.as_slice())));
        };
        let ghost before = fields@;
        if !has_field(&fields, field) {
            fields.push(field);
            proof {
                assert forall|x: int, y: int| 0 <= x < y < fields@.len() implies fields@[x]
                    != fields@[y] by {
                    if y == before.len() {
                        assert(before[x] == fields@[x]);
                    }
                }
            }
        }
        i += 1;
    }
    Ok(OutputSelection::Fields(fields))
}

/// The JSON key under which a field is printed.
pub open spec fn field_key(field: OutputField) -> Seq<char> {
    match field {
        OutputField::ZoneCode => "zoneCode"@,
        OutputField::ZoneName => "zoneName"@,
        OutputField::Road => "road"@,
        OutputField::Intersection => "intersection"@,
    }
}

/// The JSON key under which a field is printed.
pub fn output_field_key(field: OutputField) -> (r: &'static str)
    ensures
        r@ == field_key(field),
{
    match field {
        OutputField::ZoneCode => "zoneCode",
        OutputField::ZoneName => "zoneName",
        OutputField::Road => "road",
        OutputField::Intersection => "intersection",
    }
}

// ---------------------------------------------------------------------------
// Arguments
// ---------------------------------------------------------------------------

/// A lookup to run.
pub struct Config {
    /// The `--street-radius` value, as number text that is not below zero.
    pub street_radius: Option<String>,
    pub output: OutputSelection,
    pub coordinates: CoordinateInput,
}

/// What the command line asks for.
pub enum Command {
    /// `--help` or `-h` was given.
    Help,
    Lookup(Config),
}

/// Why a command line was refused.
pub enum ArgError {
    RadiusMissing,
    RadiusInvalid,
    RadiusNegative,
    OutputMissing,
    Output(OutputError),
    UnknownOption(String),
    Coordinates(CoordinateError),
}

/// The model of an `ArgError`.
pub enum ArgErrorModel {
    RadiusMissing,
    RadiusInvalid,
    RadiusNegative,
    OutputMissing,
    Output(OutputErrorModel),
    UnknownOption(Seq<char>),
    Coordinates(CoordinateErrorModel),
}

impl View for ArgError {
    type V = ArgErrorModel;

    open spec fn view(&self) -> ArgErrorModel {
        match self {
            ArgError::RadiusMissing => ArgErrorModel::RadiusMissing,
            ArgError::RadiusInvalid => ArgErrorModel::RadiusInvalid,
            ArgError::RadiusNegative => ArgErrorModel::RadiusNegative,
            ArgError::OutputMissing => ArgErrorModel::OutputMissing,
            ArgError::Output(e) => ArgErrorModel::Output(e@),
            ArgError::UnknownOption(s) => ArgErrorModel::UnknownOption(s@),
            ArgError::Coordinates(e) => ArgErrorModel::Coordinates(e@),
        }
    }
}

/// The model of a lookup.
pub struct ConfigModel {
    pub street_radius: Option<Seq<char>>,
    pub output: SelectionModel,
    pub coordinates: InputModel,
}

/// The model of a command.
pub enum CommandModel {
    Help,
    Lookup(ConfigModel),
}

impl View for Config {
    type V = ConfigModel;

    open spec fn view(&self) -> ConfigModel {
        ConfigModel {
            street_radius: coords::opt_view(self.street_radius),
            output: self.output@,
            coordinates: self.coordinates@,
        }
    }
}

impl View for Command {
    type V = CommandModel;

    open spec fn view(&self) -> CommandModel {
        match self {
            Command::Help => CommandModel::Help,
            Command::Lookup(c) => CommandModel::Lookup(c@),
        }
    }
}

/// What the option scan has gathered.
pub struct ScanState {
    pub street_radius: Option<Seq<char>>,
    pub output: SelectionModel,
    pub words: Seq<Seq<char>>,
}

/// The option scan from index `i` on. `below_zero[k]` tells whether
/// `args[k]` reads as a number below zero.
pub open spec fn scan_args(args: Seq<Seq<char>>, below_zero: Seq<bool>, i: int, st: ScanState) -> Result<
    ScanState,
    ArgErrorModel,
>
    decreases args.len() + 2 - i,
{
    if i < 0 || i >= args.len() {
        Ok(st)
    } else {
        let a = args[i];
        if a == "--street-radius"@ {
            if i + 1 >= args.len() {
                Err(ArgErrorModel::RadiusMissing)
            } else if !number::number_text(args[i + 1]) {
                Err(ArgErrorModel::RadiusInvalid)
            } else if below_zero[i + 1] {
                Err(ArgErrorModel::RadiusNegative)
            } else {
                scan_args(args, below_zero, i + 2, ScanState { street_radius: Some(args[i + 1]), ..st })
            }
        } else if a == "--output"@ || a == "-o"@ {
            if i + 1 >= args.len() {
                Err(ArgErrorModel::OutputMissing)
            } else {
                match selection(args[i + 1]) {
                    Err(e) => Err(ArgErrorModel::Output(e)),
                    Ok(s) => scan_args(args, below_zero, i + 2, ScanState { output: s, ..st }),
                }
            }
        } else if a.len() > 0 && a[0] == '-' && !number::number_text(a) && !coords::coordinate_like(
            a,
        ) {
            Err(ArgErrorModel::UnknownOption(a))
        } else {
            scan_args(args, below_zero, i + 1, ScanState { words: st.words.push(a), ..st })
        }
    }
}

/// Whether the arguments ask for help.
pub open spec fn asks_help(args: Seq<Seq<char>>) -> bool {
    exists|i: int| 0 <= i < args.len() && (args[i] == "--help"@ || args[i] == "-h"@)
}

/// What the command line asks for. `below_zero[k]` tells whether `args[k]`
/// reads as a number below zero.
pub open spec fn command_of(args: Seq<Seq<char>>, below_zero: Seq<bool>) -> Result<
    CommandModel,
    ArgErrorModel,
> {
    if asks_help(args) {
        Ok(CommandModel::Help)
    } else {
        match scan_args(
            args,
            below_zero,
            0,
            ScanState { street_radius: None, output: SelectionModel::AllJson, words: seq![] },
        ) {
            Err(e) => Err(e),
            Ok(st) => match coords::coordinates_of(st.words) {
                Err(e) => Err(ArgErrorModel::Coordinates(e)),
                Ok(c) => Ok(
                    CommandModel::Lookup(
                        ConfigModel {
                            street_radius: st.street_radius,
                            output: st.output,
                            coordinates: c,
                        },
                    ),
                ),
            },
        }
    }
}

proof fn lemma_scan_radius(args: Seq<Seq<char>>, below_zero: Seq<bool>, i: int, st: ScanState)
    requires
        below_zero.len() == args.len(),
        st.street_radius matches Some(r) ==> number::number_text(r),
    ensures
        scan_args(args, below_zero, i, st) matches Ok(s) ==> (s.street_radius matches Some(r)
            ==> number::number_text(r)),
    decreases args.len() + 2 - i,
{
    if 0 <= i < args.len() {
        let a = args[i];
        if a == "--street-radius"@ {
            if i + 1 < args.len() && number::number_text(args[i + 1]) && !below_zero[i + 1] {
                lemma_scan_radius(
                    args,
                    below_zero,
                    i + 2,
                    ScanState { street_radius: Some(args[i + 1]), ..st },
                );
            }
        } else if a == "--output"@ || a == "-o"@ {
            if i + 1 < args.len() {
                if let Ok(s) = selection(args[i + 1]) {
                    lemma_scan_radius(args, below_zero, i + 2, ScanState { output: s, ..st });
                }
            }
        } else if a.len() > 0 && a[0] == '-' && !number::number_text(a)
            && !coords::coordinate_like(a) {
        } else {
            lemma_scan_radius(
                args,
                below_zero,
                i + 1,
                ScanState { words: st.words.push(a), ..st },
            );
        }
    }
}

proof fn lemma_scan_output(args: Seq<Seq<char>>, below_zero: Seq<bool>, i: int, st: ScanState)
    requires
        forall|k: int| 0 <= k < args.len() ==> !(#[trigger] args[k] == "--output"@ || args[k] == "-o"@),
        st.output == SelectionModel::AllJson,
    ensures
        scan_args(args, below_zero, i, st) matches Ok(s) ==> s.output == SelectionModel::AllJson,
    decreases args.len() + 2 - i,
{
    if 0 <= i < args.len() {
        let a = args[i];
        assert(!(args[i] == "--output"@ || args[i] == "-o"@));
        if a == "--street-radius"@ {
            if i + 1 < args.len() && number::number_text(args[i + 1]) && !below_zero[i + 1] {
                lemma_scan_output(
                    args,
                    below_zero,
                    i + 2,
                    ScanState { street_radius: Some(args[i + 1]), ..st },
                );
            }
        } else if a.len() > 0 && a[0] == '-' && !number::number_text(a)
            && !coords::coordinate_like(a) {
        } else {
            lemma_scan_output(args, below_zero, i + 1, ScanState { words: st.words.push(a), ..st });
        }
    }
}

/// Without `--output` (or `-o`) the whole JSON document is printed.
pub proof fn lemma_default_output(args: Seq<Seq<char>>, below_zero: Seq<bool>)
    requires
        forall|k: int| 0 <= k < args.len() ==> !(#[trigger] args[k] == "--output"@ || args[k] == "-o"@),
    ensures
        command_of(args, below_zero) matches Ok(CommandModel::Lookup(c)) ==> c.output
            == SelectionModel::AllJson,
{
    lemma_scan_output(
        args,
        below_zero,
        0,
        ScanState { street_radius: None, output: SelectionModel::AllJson, words: seq![] },
    );
}

/// Reads the command line. `below_zero[k]` tells whether `args[k]` reads as
/// a number below zero (a comparison of floating-point values, which the
/// caller makes); it is consulted for `--street-radius` values only.
pub fn parse_args(args: Vec<String>, below_zero: Vec<bool>) -> (r: Result<Command, ArgError>)
    requires
        below_zero@.len() == args@.len(),
    ensures
        match command_of(coords::strings_view(args@), below_zero@) {
            Ok(c) => r matches Ok(c2) && c2@ == c,
            Err(e) => r matches Err(e2) && e2@ == e,
        },
        r matches Ok(Command::Lookup(c)) ==> (c.street_radius matches Some(s) ==> number::number_text(
            s@,
        )),
{
    let ghost av = coords::strings_view(args@);
    let mut h: usize = 0;
    while h < args.len()
        invariant
            h <= args@.len(),
            av == coords::strings_view(args@),
            forall|k: int| 0 <= k < h ==> !(av[k] == "--help"@ || av[k] == "-h"@),
        decreases args@.len() - h,
    {
        if text::text_is(args[h].as_str(), "--help") || text::text_is(args[h].as_str(), "-h") {
            assert(av[h as int] == args@[h as int]@);
            return Ok(Command::Help);
        }
        h += 1;
    }
    assert(!asks_help(av));
    let mut street_radius: Option<String> = None;
    let mut output = OutputSelection::AllJson;
    let mut coordinate_args: Vec<String> = Vec::new();
    let mut i: usize = 0;
    let ghost init = ScanState {
        street_radius: None,
        output: SelectionModel::AllJson,
        words: seq![],
    };
    proof {
        lemma_scan_radius(av, below_zero@, 0, init);
        assert(coords::strings_view(coordinate_args@) =~= seq![]);
    }
    while i < args.len()
        invariant
            i <= args@.len(),
            below_zero@.len() == args@.len(),
            av == coords::strings_view(args@),
            !asks_help(av),
            init == (ScanState {
                street_radius: None,
                output: SelectionModel::AllJson,
                words: seq![],
            }),
            scan_args(
                av,
                below_zero@,
                i as int,
                ScanState {
                    street_radius: coords::opt_view(street_radius),
                    output: output@,
                    words: coords::strings_view(coordinate_args@),
                },
            ) == scan_args(av, below_zero@, 0, init),
            street_radius matches Some(s) ==> number::number_text(s@),
        decreases args@.len() - i,
    {
        let ghost st0 = ScanState {
            street_radius: coords::opt_view(street_radius),
            output: output@,
            words: coords::strings_view(coordinate_args@),
        };
        let arg = args[i].as_str();
        assert(av[i as int] == arg@);
        let mut step: usize = 1;
        if text::text_is(arg, "--street-radius") {
            if args.len() - i < 2 {
                return Err(ArgError::RadiusMissing);
            }
            let value = args[i + 1].as_str();
            assert(av[i + 1] == value@);
            if !number::is_number_str(value) {
                return Err(ArgError::RadiusInvalid);
            }
            if below_zero[i + 1] {
                return Err(ArgError::RadiusNegative);
            }
            street_radius = Some(value.to_string());
            proof {
                vstd::string::to_string_from_display_ensures_for_str(value, street_radius.unwrap());
            }
            step = 2;
        } else if text::text_is(arg, "--output") || text::text_is(arg, "-o") {
            if args.len() - i < 2 {
                return Err(ArgError::OutputMissing);
            }
            assert(av[i + 1] == args@[i + 1]@);
            match parse_output_selection(args[i + 1].as_str()) {
                Ok(selected) => {
                    output = selected;
                },
                Err(e) => {
                    return Err(ArgError::Output(e));
                },
            }
            step = 2;
        } else {
            let av_chars = text::chars_of(arg);
            if av_chars.len() > 0 && av_chars[0] == '-' && !number::is_number_str(arg)
                && !coords::looks_like_coordinate_token(arg) {
                return Err(ArgError::UnknownOption(arg.to_string()));
            }
            let ghost before = coords::strings_view(coordinate_args@);
            coordinate_args.push(arg.to_string());
            proof {
                vstd::string::to_string_from_display_ensures_for_str(arg, coordinate_args@.last());
                assert(coords::strings_view(coordinate_args@) =~= before.push(arg@));
            }
        }
        proof {
            let st1 = ScanState {
                street_radius: coords::opt_view(street_radius),
                output: output@,
                words: coords::strings_view(coordinate_args@),
            };
            assert(scan_args(av, below_zero@, i as int, st0) == scan_args(
                av,
                below_zero@,
                i + step,
                st1,
            ));
        }
        i = i + step;
    }
    let ghost fin = ScanState {
        street_radius: coords::opt_view(street_radius),
        output: output@,
        words: coords::strings_view(coordinate_args@),
    };
    assert(scan_args(av, below_zero@, i as int, fin) == Ok::<ScanState, ArgErrorModel>(fin));
    match coords::parse_coordinates(coordinate_args.as_slice()) {
        Ok(coordinates) => Ok(Command::Lookup(Config { street_radius, output, coordinates })),
        Err(e) => Err(ArgError::Coordinates(e)),
    }
}

// ---------------------------------------------------------------------------
// Error texts
// ---------------------------------------------------------------------------

/// The text that reports a coordinate error.
pub open spec fn coordinate_error_text(e: CoordinateErrorModel) -> Seq<char> {
    match e {
        CoordinateErrorModel::Missing => "expected coordinates: x y z"@,
        CoordinateErrorModel::InvalidValue { key, value } => "invalid "@ + key + " coordinate: "@
            + value,
        CoordinateErrorModel::IncompleteKeyValue => "expected x=, y= and z= coordinates"@,
        CoordinateErrorModel::Unrecognized => COORDINATE_SHAPES@,
    }
}

/// The text that reports that no coordinate shape matched.
pub const COORDINATE_SHAPES: &'static str = "expected coordinates as x y z, x,y,z, vec(...), vec3(...), vec4(...), x=... y=... z=..., {\"x\":...}, or [x,y,z]";

/// The text that reports an unknown output field.
pub const FIELD_CHOICES: &'static str = ". Use zone-code, zone-name, road, intersection, or json";

/// The text that reports a command-line error.
pub open spec fn arg_error_text(e: ArgErrorModel) -> Seq<char> {
    match e {
        ArgErrorModel::RadiusMissing => "--street-radius needs a number"@,
        ArgErrorModel::RadiusInvalid => "--street-radius must be a valid number"@,
        ArgErrorModel::RadiusNegative => "--street-radius cannot be negative"@,
        ArgErrorModel::OutputMissing => "--output needs zone-code, zone-name, road, intersection, or json"@,
        ArgErrorModel::Output(OutputErrorModel::EmptyField) => "empty output field"@,
        ArgErrorModel::Output(OutputErrorModel::InvalidField(p)) => "invalid output field: "@ + p
            + FIELD_CHOICES@,
        ArgErrorModel::UnknownOption(a) => "unknown option: "@ + a,
        ArgErrorModel::Coordinates(c) => coordinate_error_text(c),
    }
}

impl CoordinateError {
    /// The text that reports this error.
    pub fn message(&self) -> (r: String)
        ensures
            r@ == coordinate_error_text(self@),
    {
        let mut out: Vec<char> = Vec::new();
        match self {
            CoordinateError::Missing => text::push_str(&mut out, "expected coordinates: x y z"),
            CoordinateError::InvalidValue { key, value } => {
                text::push_str(&mut out, "invalid ");
                text::push_str(&mut out, key.as_str());
                text::push_str(&mut out, " coordinate: ");
                text::push_str(&mut out, value.as_str());
            },
            CoordinateError::IncompleteKeyValue => text::push_str(
                &mut out,
                "expected x=, y= and z= coordinates",
            ),
            CoordinateError::Unrecognized => text::push_str(&mut out, COORDINATE_SHAPES),
        }
        text::string_of(out.as_slice())
    }
}

impl ArgError {
    /// The text that reports this error.
    pub fn message(&self) -> (r: String)
        ensures
            r@ == arg_error_text(self@),
    {
        let mut out: Vec<char> = Vec::new();
        match self {
            ArgError::RadiusMissing => text::push_str(&mut out, "--street-radius needs a number"),
            ArgError::RadiusInvalid => text::push_str(
                &mut out,
                "--street-radius must be a valid number",
            ),
            ArgError::RadiusNegative => text::push_str(
                &mut out,
                "--street-radius cannot be negative",
            ),
            ArgError::OutputMissing => text::push_str(
                &mut out,
                "--output needs zone-code, zone-name, road, intersection, or json",
            ),
            ArgError::Output(OutputError::EmptyField) => text::push_str(
                &mut out,
                "empty output field",
            ),
            ArgError::Output(OutputError::InvalidField(p)) => {
                text::push_str(&mut out, "invalid output field: ");
                text::push_str(&mut out, p.as_str());
                text::push_str(&mut out, FIELD_CHOICES);
            },
            ArgError::UnknownOption(a) => {
                text::push_str(&mut out, "unknown option: ");
                text::push_str(&mut out, a.as_str());
            },
            ArgError::Coordinates(c) => {
                let m = c.message();
                return m;
            },
        }
        text::string_of(out.as_slice())
    }
}

// ---------------------------------------------------------------------------
// Laws
// ---------------------------------------------------------------------------

/// The field that the `k`th comma-separated piece of `v` names, once trimmed.
pub open spec fn piece_field(v: Seq<char>, k: int) -> Option<OutputField> {
    field_named(text::trim(text::span_text(v, text::pieces(v, ',')[k])))
}

proof fn lemma_fields_from_members(v: Seq<char>, ps: Seq<(int, int)>, i: int, acc: Seq<OutputField>)
    requires
        0 <= i,
    ensures
        fields_from(v, ps, i, acc) matches Ok(fs) ==> (forall|f: OutputField|
            #[trigger] fs.contains(f) <==> (acc.contains(f) || exists|k: int|
                i <= k < ps.len() && #[trigger] field_named(text::trim(text::span_text(v, ps[k])))
                    == Some(f))),
    decreases ps.len() - i,
{
    if i < ps.len() {
        let p = text::trim(text::span_text(v, ps[i]));
        if p.len() != 0 {
            if let Some(g) = field_named(p) {
                let next = if acc.contains(g) {
                    acc
                } else {
                    acc.push(g)
                };
                lemma_fields_from_members(v, ps, i + 1, next);
                if let Ok(fs) = fields_from(v, ps, i, acc) {
                    assert forall|f: OutputField| #[trigger] fs.contains(f) <==> (acc.contains(f)
                        || exists|k: int|
                        i <= k < ps.len() && #[trigger] field_named(
                            text::trim(text::span_text(v, ps[k])),
                        ) == Some(f)) by {
                        if f == g {
                            assert(next.contains(g)) by {
                                if !acc.contains(g) {
                                    assert(next[acc.len() as int] == g);
                                }
                            }
                        }
                        assert(next.contains(f) <==> (acc.contains(f) || f == g)) by {
                            if next.contains(f) && !acc.contains(f) && !acc.contains(g) {
                                let q = choose|q: int| 0 <= q < next.len() && next[q] == f;
                                if q < acc.len() {
                                    assert(acc[q] == f);
                                }
                            }
                            if acc.contains(f) && !acc.contains(g) {
                                let q = choose|q: int| 0 <= q < acc.len() && acc[q] == f;
                                assert(next[q] == f);
                            }
                        }
                        if exists|k: int|
                            i <= k < ps.len() && #[trigger] field_named(
                                text::trim(text::span_text(v, ps[k])),
                            ) == Some(f) {
                            let k = choose|k: int|
                                i <= k < ps.len() && #[trigger] field_named(
                                    text::trim(text::span_text(v, ps[k])),
                                ) == Some(f);
                            if k > i {
                                assert(exists|k2: int|
                                    i + 1 <= k2 < ps.len() && #[trigger] field_named(
                                        text::trim(text::span_text(v, ps[k2])),
                                    ) == Some(f));
                            }
                        }
                        if exists|k: int|
                            i + 1 <= k < ps.len() && #[trigger] field_named(
                                text::trim(text::span_text(v, ps[k])),
                            ) == Some(f) {
                            let k = choose|k: int|
                                i + 1 <= k < ps.len() && #[trigger] field_named(
                                    text::trim(text::span_text(v, ps[k])),
                                ) == Some(f);
                            assert(i <= k < ps.len());
                        }
                        if f == g {
                            assert(field_named(text::trim(text::span_text(v, ps[i]))) == Some(f));
                        }
                    }
                }
            }
        }
    }
}

/// A list of fields chosen with `--output` holds exactly the fields that
/// its comma-separated pieces name: each field listed is named by some
/// piece, and each piece names a field listed.
pub proof fn law_selection_fields_are_named(v: Seq<char>)
    ensures
        selection(v) matches Ok(SelectionModel::Fields(fs)) ==> (forall|f: OutputField|
            #[trigger] fs.contains(f) <==> exists|k: int|
                0 <= k < text::pieces(v, ',').len() && #[trigger] piece_field(v, k) == Some(f)),
        selection(v) matches Ok(SelectionModel::Fields(fs)) ==> forall|k: int|
            0 <= k < text::pieces(v, ',').len() ==> (#[trigger] piece_field(v, k)) is Some
                && fs.contains(piece_field(v, k).unwrap()),
{
    let ps = text::pieces(v, ',');
    if !(v == "json"@ || v == "all"@) {
        lemma_fields_from_members(v, ps, 0, seq![]);
        lemma_fields_from_named(v, ps, 0, seq![]);
        if let Ok(fs) = fields_from(v, ps, 0, seq![]) {
            assert forall|f: OutputField| #[trigger] fs.contains(f) <==> exists|k: int|
                0 <= k < ps.len() && #[trigger] piece_field(v, k) == Some(f) by {
                if fs.contains(f) {
                    let k = choose|k: int|
                        0 <= k < ps.len() && #[trigger] field_named(
                            text::trim(text::span_text(v, ps[k])),
                        ) == Some(f);
                    assert(piece_field(v, k) == Some(f));
                }
                if exists|k: int| 0 <= k < ps.len() && #[trigger] piece_field(v, k) == Some(f) {
                    let k = choose|k: int| 0 <= k < ps.len() && #[trigger] piece_field(v, k) == Some(f);
                    assert(field_named(text::trim(text::span_text(v, ps[k]))) == Some(f));
                }
            }
            assert forall|k: int| 0 <= k < ps.len() implies (#[trigger] piece_field(v, k)) is Some
                && fs.contains(piece_field(v, k).unwrap()) by {
                assert(field_named(text::trim(text::span_text(v, ps[k]))) is Some);
                let f = piece_field(v, k).unwrap();
                assert(field_named(text::trim(text::span_text(v, ps[k]))) == Some(f));
            }
        }
    }
}

proof fn lemma_fields_from_named(v: Seq<char>, ps: Seq<(int, int)>, i: int, acc: Seq<OutputField>)
    requires
        0 <= i,
    ensures
        fields_from(v, ps, i, acc) is Ok ==> forall|k: int|
            i <= k < ps.len() ==> (#[trigger] field_named(text::trim(text::span_text(v, ps[k]))))
                is Some,
    decreases ps.len() - i,
{
    if i < ps.len() {
        let p = text::trim(text::span_text(v, ps[i]));
        if p.len() != 0 {
            if let Some(g) = field_named(p) {
                let next = if acc.contains(g) {
                    acc
                } else {
                    acc.push(g)
                };
                lemma_fields_from_named(v, ps, i + 1, next);
            }
        }
    }
}

} // verus!
