//! The equalizer: ten bands, a table of presets, and partial changes.

use vstd::prelude::*;

use crate::double::Double;
use crate::text::concat3;

verus! {

/// The bands' centre frequencies in hertz, an octave apart.
pub open spec fn frequencies() -> Seq<u32> {
    seq![32u32, 64, 125, 250, 500, 1000, 2000, 4000, 8000, 16000]
}

/// The bands' centre frequencies in hertz, one per gain.
pub fn eq_frequencies_hz() -> (r: Vec<u32>)
    ensures
        r@ == frequencies(),
{
    let r: Vec<u32> = vec![32u32, 64, 125, 250, 500, 1000, 2000, 4000, 8000, 16000];
    assert(r@ =~= frequencies());
    r
}

/// The largest gain of a band, either way: 15 dB.
pub const EQ_GAIN_LIMIT_BITS: u64 = 0x402E_0000_0000_0000;

/// The bits of a small whole number of decibels.
pub open spec fn whole_gain(db: int) -> Double {
    let bits: u64 = if db == 1 || db == -1 {
        0x3FF0_0000_0000_0000
    } else if db == 2 || db == -2 {
        0x4000_0000_0000_0000
    } else if db == 3 || db == -3 {
        0x4008_0000_0000_0000
    } else if db == 4 {
        0x4010_0000_0000_0000
    } else if db == 5 {
        0x4014_0000_0000_0000
    } else if db == 6 {
        0x4018_0000_0000_0000
    } else if db == 8 {
        0x4020_0000_0000_0000
    } else {
        0
    };
    Double {
        bits: if db < 0 {
            (bits + 0x8000_0000_0000_0000) as u64
        } else {
            bits
        },
    }
}

fn gain(db: i8) -> (r: Double)
    ensures
        r == whole_gain(db as int),
{
    let bits: u64 = if db == 1 || db == -1 {
        0x3FF0_0000_0000_0000
    } else if db == 2 || db == -2 {
        0x4000_0000_0000_0000
    } else if db == 3 || db == -3 {
        0x4008_0000_0000_0000
    } else if db == 4 {
        0x4010_0000_0000_0000
    } else if db == 5 {
        0x4014_0000_0000_0000
    } else if db == 6 {
        0x4018_0000_0000_0000
    } else if db == 8 {
        0x4020_0000_0000_0000
    } else {
        0
    };
    Double {
        bits: if db < 0 {
            bits + 0x8000_0000_0000_0000
        } else {
            bits
        },
    }
}

/// The presets: names and whole gains in decibels.
pub open spec fn preset_table() -> Seq<(Seq<char>, Seq<int>)> {
    seq![
        ("Flat"@, seq![0int, 0, 0, 0, 0, 0, 0, 0, 0, 0]),
        ("Bass Boost"@, seq![6int, 5, 4, 2, 0, 0, 0, 0, 0, 0]),
        ("Vocal Boost"@, seq![-2int, -2, -1, 0, 4, 5, 4, 2, 0, -1]),
        ("Pop"@, seq![-1int, 1, 3, 4, 3, 1, -1, -1, 2, 2]),
        ("Rock"@, seq![5int, 4, 2, 0, -1, -1, 0, 2, 4, 5]),
        ("Hip-Hop"@, seq![6int, 5, 3, 1, -1, -1, 1, 2, 3, 3]),
        ("Jazz"@, seq![3int, 2, 1, 0, -1, -1, 0, 1, 2, 3]),
        ("Classical"@, seq![4int, 3, 2, 1, 0, 0, 0, 1, 2, 3]),
        ("Electronic"@, seq![5int, 4, 2, 0, -2, -1, 0, 2, 4, 5]),
        ("Acoustic"@, seq![3int, 2, 1, 0, 1, 1, 2, 2, 3, 2]),
        ("Deep Bass"@, seq![8int, 6, 3, 0, -2, -2, -1, 0, 0, 0]),
        ("Bright"@, seq![-2int, -1, 0, 0, 1, 2, 3, 4, 5, 5]),
        ("Crisp"@, seq![-1int, 0, 0, 0, 0, 1, 2, 3, 4, 4]),
        ("Live"@, seq![-2int, 0, 2, 3, 3, 3, 2, 1, 2, 2]),
        ("Headphones"@, seq![3int, 4, 3, 1, -1, -1, 0, 2, 3, 4]),
        ("Small Speakers"@, seq![6int, 5, 4, 2, 1, 0, 0, 1, 2, 2]),
        ("Laptop"@, seq![5int, 4, 3, 1, 0, 0, 1, 2, 3, 3]),
        ("Car"@, seq![4int, 3, 1, 0, -1, -1, 0, 2, 4, 5]),
        ("Earbuds"@, seq![4int, 3, 2, 1, 0, 0, 1, 2, 3, 3]),
        ("Podcast"@, seq![-3int, -2, 0, 2, 4, 5, 4, 2, 0, -2]),
    ]
}

/// The gains of a table row.
pub open spec fn row_gains(row: Seq<int>) -> Seq<Double> {
    row.map_values(|db: int| whole_gain(db))
}

/// A preset: its name and its gains.
#[derive(Debug, PartialEq, Eq)]
pub struct Preset {
    pub name: &'static str,
    pub bands: Vec<Double>,
}

/// A preset by view.
pub open spec fn preset_view(p: Preset) -> (Seq<char>, Seq<Double>) {
    (p.name@, p.bands@)
}

/// The presets with their gains.
pub open spec fn preset_views() -> Seq<(Seq<char>, Seq<Double>)> {
    preset_table().map_values(|row: (Seq<char>, Seq<int>)| (row.0, row_gains(row.1)))
}

#[allow(clippy::too_many_arguments)]
fn preset(
    name: &'static str,
    a: i8,
    b: i8,
    c: i8,
    d: i8,
    e: i8,
    f: i8,
    g: i8,
    h: i8,
    i: i8,
    j: i8,
) -> (r: Preset)
    ensures
        preset_view(r) == (
            name@,
            row_gains(
                seq![
                    a as int,
                    b as int,
                    c as int,
                    d as int,
                    e as int,
                    f as int,
                    g as int,
                    h as int,
                    i as int,
                    j as int,
                ],
            ),
        ),
{
    let mut bands: Vec<Double> = Vec::new();
    bands.push(gain(a));
    bands.push(gain(b));
    bands.push(gain(c));
    bands.push(gain(d));
    bands.push(gain(e));
    bands.push(gain(f));
    bands.push(gain(g));
    bands.push(gain(h));
    bands.push(gain(i));
    bands.push(gain(j));
    assert(bands@ =~= row_gains(
        seq![
            a as int,
            b as int,
            c as int,
            d as int,
            e as int,
            f as int,
            g as int,
            h as int,
            i as int,
            j as int,
        ],
    ));
    Preset { name, bands }
}

/// The table of presets.
#[verifier::rlimit(60)]
pub fn eq_presets() -> (r: Vec<Preset>)
    ensures
        r@.map_values(|p: Preset| preset_view(p)) == preset_views(),
{
    let mut out: Vec<Preset> = Vec::new();
    out.push(preset("Flat", 0, 0, 0, 0, 0, 0, 0, 0, 0, 0));
    out.push(preset("Bass Boost", 6, 5, 4, 2, 0, 0, 0, 0, 0, 0));
    out.push(preset("Vocal Boost", -2, -2, -1, 0, 4, 5, 4, 2, 0, -1));
    out.push(preset("Pop", -1, 1, 3, 4, 3, 1, -1, -1, 2, 2));
    out.push(preset("Rock", 5, 4, 2, 0, -1, -1, 0, 2, 4, 5));
    out.push(preset("Hip-Hop", 6, 5, 3, 1, -1, -1, 1, 2, 3, 3));
    out.push(preset("Jazz", 3, 2, 1, 0, -1, -1, 0, 1, 2, 3));
    out.push(preset("Classical", 4, 3, 2, 1, 0, 0, 0, 1, 2, 3));
    out.push(preset("Electronic", 5, 4, 2, 0, -2, -1, 0, 2, 4, 5));
    out.push(preset("Acoustic", 3, 2, 1, 0, 1, 1, 2, 2, 3, 2));
    out.push(preset("Deep Bass", 8, 6, 3, 0, -2, -2, -1, 0, 0, 0));
    out.push(preset("Bright", -2, -1, 0, 0, 1, 2, 3, 4, 5, 5));
    out.push(preset("Crisp", -1, 0, 0, 0, 0, 1, 2, 3, 4, 4));
    out.push(preset("Live", -2, 0, 2, 3, 3, 3, 2, 1, 2, 2));
    out.push(preset("Headphones", 3, 4, 3, 1, -1, -1, 0, 2, 3, 4));
    out.push(preset("Small Speakers", 6, 5, 4, 2, 1, 0, 0, 1, 2, 2));
    out.push(preset("Laptop", 5, 4, 3, 1, 0, 0, 1, 2, 3, 3));
    out.push(preset("Car", 4, 3, 1, 0, -1, -1, 0, 2, 4, 5));
    out.push(preset("Earbuds", 4, 3, 2, 1, 0, 0, 1, 2, 3, 3));
    out.push(preset("Podcast", -3, -2, 0, 2, 4, 5, 4, 2, 0, -2));
    assert(out@.map_values(|p: Preset| preset_view(p)) =~= preset_views());
    out
}

/// The state of the equalizer. Switched off, it keeps its bands.
#[derive(Debug, PartialEq, Eq)]
pub struct EqState {
    pub enabled: bool,
    /// The preset that was applied last, or `Custom`.
    pub preset: String,
    /// Ten gains.
    pub bands: Vec<Double>,
}

#[verifier::ext_equal]
pub struct EqStateView {
    pub enabled: bool,
    pub preset: Seq<char>,
    pub bands: Seq<Double>,
}

impl View for EqState {
    type V = EqStateView;

    open spec fn view(&self) -> EqStateView {
        EqStateView { enabled: self.enabled, preset: self.preset@, bands: self.bands@ }
    }
}

fn copy_gains(v: &Vec<Double>) -> (r: Vec<Double>)
    ensures
        r@ == v@,
{
    let mut out: Vec<Double> = Vec::new();
    let mut i: usize = 0;
    while i < v.len()
        invariant
            i <= v@.len(),
            out@ == v@.subrange(0, i as int),
        decreases v@.len() - i,
    {
        out.push(v[i]);
        i += 1;
        assert(out@ =~= v@.subrange(0, i as int));
    }
    assert(out@ =~= v@);
    out
}

impl Clone for EqState {
    fn clone(&self) -> (r: Self)
        ensures
            r@ == self@,
    {
        EqState {
            enabled: self.enabled,
            preset: self.preset.clone(),
            bands: copy_gains(&self.bands),
        }
    }
}

impl Default for EqState {
    fn default() -> (r: Self)
        ensures
            r@ == (EqStateView {
                enabled: false,
                preset: "Flat"@,
                bands: row_gains(preset_table()[0].1),
            }),
    {
        let flat = preset("Flat", 0, 0, 0, 0, 0, 0, 0, 0, 0, 0);
        EqState { enabled: false, preset: "Flat".to_owned(), bands: flat.bands }
    }
}

/// Whether a gain lies within the limit, either way.
pub open spec fn gain_in_range(g: Double) -> bool {
    !g.nan() && g.magnitude() <= EQ_GAIN_LIMIT_BITS
}

/// Whether two rows of gains are the same numbers.
pub open spec fn same_gains(a: Seq<Double>, b: Seq<Double>) -> bool {
    &&& a.len() == b.len()
    &&& forall|i: int| 0 <= i < a.len() ==> (#[trigger] a[i]).same(b[i])
}

/// The first preset at or after `from` with this name.
pub open spec fn preset_named(name: Seq<char>, from: int) -> Option<int>
    decreases preset_views().len() - from,
{
    if from >= preset_views().len() {
        None
    } else if preset_views()[from].0 == name {
        Some(from)
    } else {
        preset_named(name, from + 1)
    }
}

/// The first preset at or after `from` with these gains.
pub open spec fn preset_with(gains: Seq<Double>, from: int) -> Option<int>
    decreases preset_views().len() - from,
{
    if from >= preset_views().len() {
        None
    } else if same_gains(preset_views()[from].1, gains) {
        Some(from)
    } else {
        preset_with(gains, from + 1)
    }
}

/// The name under which the quoted form of a text is known.
pub uninterp spec fn quoted(s: Seq<char>) -> Seq<char>;

/// The text between quotation marks and with escapes, as `{:?}` of
/// `format!` writes a `str`: the same text is always written alike.
#[verifier::external_body]
pub(crate) fn quote(s: &str) -> (r: String)
    ensures
        r@ == quoted(s@),
{
    format!("{s:?}")
}

pub open spec fn unknown_preset(name: Seq<char>) -> Seq<char> {
    "неизвестный пресет эквалайзера "@ + quoted(name)
        + "; точное имя из списка пресетов (см. eq_presets)"@
}

pub open spec fn bad_bands() -> Seq<char> {
    "bands: ожидается ровно 10 значений в диапазоне -15..=15 дБ"@
}

/// The state after an optional change of preset.
pub open spec fn with_preset(eq: EqStateView, preset: Option<Seq<char>>) -> Result<
    EqStateView,
    Seq<char>,
> {
    match preset {
        Some(name) => match preset_named(name, 0) {
            Some(i) => Ok(
                EqStateView {
                    enabled: eq.enabled,
                    preset: preset_views()[i].0,
                    bands: preset_views()[i].1,
                },
            ),
            None => Err(unknown_preset(name)),
        },
        None => Ok(eq),
    }
}

/// The state after an optional change of the bands. Bands that are those
/// of a preset keep its name.
pub open spec fn with_bands(eq: EqStateView, bands: Option<Seq<Double>>) -> Result<
    EqStateView,
    Seq<char>,
> {
    match bands {
        Some(gains) => if gains.len() != 10 || exists|i: int|
            0 <= i < gains.len() && !gain_in_range(#[trigger] gains[i]) {
            Err(bad_bands())
        } else {
            Ok(
                EqStateView {
                    enabled: eq.enabled,
                    preset: match preset_with(gains, 0) {
                        Some(i) => preset_views()[i].0,
                        None => "Custom"@,
                    },
                    bands: gains,
                },
            )
        },
        None => Ok(eq),
    }
}

/// The state after a partial change: what is not given stays.
pub open spec fn merged(
    eq: EqStateView,
    enabled: Option<bool>,
    preset: Option<Seq<char>>,
    bands: Option<Seq<Double>>,
) -> Result<EqStateView, Seq<char>> {
    let switched = EqStateView {
        enabled: match enabled {
            Some(b) => b,
            None => eq.enabled,
        },
        ..eq
    };
    match with_preset(switched, preset) {
        Ok(named) => with_bands(named, bands),
        Err(e) => Err(e),
    }
}

/// A state or a complaint, by view.
pub open spec fn eq_result(r: Result<EqState, String>) -> Result<EqStateView, Seq<char>> {
    match r {
        Ok(eq) => Ok(eq@),
        Err(e) => Err(e@),
    }
}

/// The bands of an optional change.
pub open spec fn opt_gains(o: Option<Vec<Double>>) -> Option<Seq<Double>> {
    match o {
        Some(v) => Some(v@),
        None => None,
    }
}

fn in_range(g: Double) -> (r: bool)
    ensures
        r == gain_in_range(g),
{
    !g.is_nan() && (if g.bits >= 0x8000_0000_0000_0000 {
        g.bits - 0x8000_0000_0000_0000 <= EQ_GAIN_LIMIT_BITS
    } else {
        g.bits <= EQ_GAIN_LIMIT_BITS
    })
}

fn gains_equal(a: &Vec<Double>, b: &Vec<Double>) -> (r: bool)
    ensures
        r == same_gains(a@, b@),
{
    if a.len() != b.len() {
        return false;
    }
    let mut i: usize = 0;
    while i < a.len()
        invariant
            i <= a@.len(),
            a@.len() == b@.len(),
            forall|k: int| 0 <= k < i ==> (#[trigger] a@[k]).same(b@[k]),
        decreases a@.len() - i,
    {
        if !a[i].num_eq(&b[i]) {
            assert(!a@[i as int].same(b@[i as int]));
            return false;
        }
        i += 1;
    }
    true
}

/// Applies a partial change.
#[verifier::loop_isolation(false)]
pub fn merge_equalizer(
    current: &EqState,
    enabled: Option<bool>,
    preset: Option<String>,
    bands: Option<Vec<Double>>,
) -> (r: Result<EqState, String>)
    ensures
        eq_result(r) == merged(
            current@,
            enabled,
            crate::text::opt_text(preset),
            opt_gains(bands),
        ),
{
    let mut eq = current.clone();
    if let Some(on) = enabled {
        eq.enabled = on;
    }
    let presets = eq_presets();
    let ghost views = presets@.map_values(|p: Preset| preset_view(p));
    assert(views == preset_views());
    if let Some(name) = preset {
        let ghost wanted = name@;
        let ghost before = eq@;
        let mut i: usize = 0;
        let mut found: bool = false;
        while i < presets.len() && !found
            invariant
                i <= presets@.len(),
                views == presets@.map_values(|p: Preset| preset_view(p)),
                views == preset_views(),
                wanted == name@,
                found ==> i < presets@.len() && preset_named(wanted, 0) == Some(i as int),
                !found ==> preset_named(wanted, 0) == preset_named(wanted, i as int),
            decreases presets@.len() - i + if found { 0int } else { 1 },
        {
            assert(views[i as int] == preset_view(presets@[i as int]));
            if presets[i].name.eq(name.as_str()) {
                found = true;
            } else {
                i += 1;
            }
        }
        if found {
            assert(views[i as int] == preset_view(presets@[i as int]));
            eq.preset = presets[i].name.to_owned();
            eq.bands = copy_gains(&presets[i].bands);
        } else {
            return Err(
                concat3(
                    "неизвестный пресет эквалайзера ",
                    quote(name.as_str()).as_str(),
                    "; точное имя из списка пресетов (см. eq_presets)",
                ),
            );
        }
    }
    if let Some(gains) = bands {
        if gains.len() != 10 {
            return Err("bands: ожидается ровно 10 значений в диапазоне -15..=15 дБ".to_owned());
        }
        let mut k: usize = 0;
        while k < gains.len()
            invariant
                k <= gains@.len(),
                forall|j: int| 0 <= j < k ==> gain_in_range(#[trigger] gains@[j]),
            decreases gains@.len() - k,
        {
            if !in_range(gains[k]) {
                assert(!gain_in_range(gains@[k as int]));
                return Err(
                    "bands: ожидается ровно 10 значений в диапазоне -15..=15 дБ".to_owned(),
                );
            }
            k += 1;
        }
        let mut i: usize = 0;
        let mut found: bool = false;
        while i < presets.len() && !found
            invariant
                i <= presets@.len(),
                views == presets@.map_values(|p: Preset| preset_view(p)),
                views == preset_views(),
                found ==> i < presets@.len() && preset_with(gains@, 0) == Some(i as int),
                !found ==> preset_with(gains@, 0) == preset_with(gains@, i as int),
            decreases presets@.len() - i + if found { 0int } else { 1 },
        {
            assert(views[i as int] == preset_view(presets@[i as int]));
            if gains_equal(&presets[i].bands, &gains) {
                found = true;
            } else {
                i += 1;
            }
        }
        if found {
            assert(views[i as int] == preset_view(presets@[i as int]));
            eq.preset = presets[i].name.to_owned();
        } else {
            eq.preset = "Custom".to_owned();
        }
        eq.bands = gains;
    }
    Ok(eq)
}

/// Every preset has ten bands, all within the limit.
pub proof fn lemma_presets_are_well_formed(i: int, k: int)
    requires
        0 <= i < preset_table().len(),
        0 <= k < 10,
    ensures
        preset_table()[i].1.len() == 10,
        preset_views()[i].1.len() == frequencies().len(),
        gain_in_range(preset_views()[i].1[k]),
{
    let row = preset_table()[i].1;
    assert(preset_views()[i].1[k] == whole_gain(row[k]));
}

/// Ten bands, all within the limit.
pub open spec fn sound(eq: EqStateView) -> bool {
    &&& eq.bands.len() == 10
    &&& forall|i: int| 0 <= i < 10 ==> gain_in_range(#[trigger] eq.bands[i])
}

/// A change keeps the bands sound: ten of them, all within the limit.
pub proof fn lemma_changes_keep_the_bands_sound(
    eq: EqStateView,
    enabled: Option<bool>,
    preset: Option<Seq<char>>,
    bands: Option<Seq<Double>>,
)
    requires
        sound(eq),
    ensures
        merged(eq, enabled, preset, bands) matches Ok(after) ==> sound(after),
{
    if let Some(name) = preset {
        lemma_preset_named(name, 0);
        if let Some(i) = preset_named(name, 0) {
            assert forall|k: int| 0 <= k < 10 implies gain_in_range(
                #[trigger] preset_views()[i].1[k],
            ) by {
                lemma_presets_are_well_formed(i, k);
            }
            lemma_presets_are_well_formed(i, 0);
        }
    }
}

proof fn lemma_preset_named(name: Seq<char>, from: int)
    requires
        0 <= from,
    ensures
        preset_named(name, from) matches Some(i) ==> from <= i < preset_views().len()
            && preset_views()[i].0 == name,
    decreases preset_views().len() - from,
{
    if from < preset_views().len() && preset_views()[from].0 != name {
        lemma_preset_named(name, from + 1);
    }
}

/// An empty change changes nothing; a preset that is chosen by name is the
/// one that is then reported.
pub proof fn lemma_partial_changes(eq: EqStateView, name: Seq<char>)
    ensures
        merged(eq, None, None, None) == Ok::<EqStateView, Seq<char>>(eq),
        merged(eq, None, Some(name), None) matches Ok(after) ==> after.preset == name
            && after.enabled == eq.enabled,
{
    lemma_preset_named(name, 0);
}

/// What is asked for is what is set: the switch is thrown as asked, a preset
/// of the table brings its own gains, and ten gains within 15 dB either way
/// are taken as they are, under the name of a preset with the same gains or
/// as a setting of one's own. Anything else is refused. What is not asked
/// for stays.
pub proof fn lemma_the_equalizer_is_set_as_asked(
    eq: EqStateView,
    on: bool,
    i: int,
    gains: Seq<Double>,
    name: Seq<char>,
)
    requires
        0 <= i < preset_table().len(),
    ensures
        merged(eq, Some(on), None, None) == Ok::<EqStateView, Seq<char>>(
            EqStateView { enabled: on, ..eq },
        ),
        merged(eq, None, Some(preset_table()[i].0), None) matches Ok(after) && after.enabled
            == eq.enabled && after.preset == preset_table()[i].0 && exists|j: int|
            #![trigger preset_table()[j]]
            0 <= j < preset_table().len() && preset_table()[j].0 == after.preset && after.bands
                == preset_table()[j].1.map_values(|db: int| whole_gain(db)),
        !preset_table().map_values(|row: (Seq<char>, Seq<int>)| row.0).contains(name) ==> merged(
            eq,
            None,
            Some(name),
            None,
        ) is Err,
        merged(eq, None, None, Some(gains)) is Ok <==> gains.len() == 10 && forall|k: int|
            0 <= k < 10 ==> !(#[trigger] gains[k]).nan() && !gains[k].less(
                Double { bits: 0xC02E_0000_0000_0000 },
            ) && !(Double { bits: 0x402E_0000_0000_0000 }).less(gains[k]),
        merged(eq, None, None, Some(gains)) matches Ok(after) ==> after.bands == gains
            && after.enabled == eq.enabled && (after.preset == "Custom"@ || exists|j: int|
            #![trigger preset_table()[j]]
            0 <= j < preset_table().len() && preset_table()[j].0 == after.preset && same_gains(
                preset_table()[j].1.map_values(|db: int| whole_gain(db)),
                gains,
            )),
        (merged(eq, None, None, Some(gains)) is Ok && same_gains(
            preset_table()[i].1.map_values(|db: int| whole_gain(db)),
            gains,
        )) ==> exists|j: int|
            #![trigger preset_table()[j]]
            0 <= j <= i && preset_table()[j].0 == merged(eq, None, None, Some(gains))->Ok_0.preset,
{
    let table = preset_table();
    lemma_preset_named(table[i].0, 0);
    lemma_preset_missing(table[i].0, 0);
    assert(preset_views()[i].0 == table[i].0);
    let j = preset_named(table[i].0, 0)->0;
    assert(preset_views()[j] == (table[j].0, row_gains(table[j].1)));
    lemma_preset_named(name, 0);
    if let Some(n) = preset_named(name, 0) {
        let names = table.map_values(|row: (Seq<char>, Seq<int>)| row.0);
        assert(names[n] == name);
        assert(names.contains(name));
    }
    lemma_preset_with(gains, 0);
    if let Some(n) = preset_with(gains, 0) {
        assert(preset_views()[n] == (table[n].0, row_gains(table[n].1)));
        assert(table[n].0 == preset_views()[n].0);
    }
    assert(preset_views()[i] == (table[i].0, row_gains(table[i].1)));
    let low = Double { bits: 0xC02E_0000_0000_0000 };
    let high = Double { bits: 0x402E_0000_0000_0000 };
    assert forall|k: int| 0 <= k < gains.len() implies gain_in_range(#[trigger] gains[k]) == (
    !gains[k].nan() && !gains[k].less(low) && !high.less(gains[k])) by {}
}

proof fn lemma_preset_missing(name: Seq<char>, from: int)
    requires
        0 <= from,
    ensures
        preset_named(name, from) is None ==> forall|k: int|
            from <= k < preset_views().len() ==> (#[trigger] preset_views()[k]).0 != name,
    decreases preset_views().len() - from,
{
    if from < preset_views().len() && preset_views()[from].0 != name {
        lemma_preset_missing(name, from + 1);
    }
}

proof fn lemma_preset_with(gains: Seq<Double>, from: int)
    requires
        0 <= from,
    ensures
        preset_with(gains, from) matches Some(i) ==> from <= i < preset_views().len()
            && same_gains(preset_views()[i].1, gains) && forall|k: int|
            from <= k < i ==> !same_gains((#[trigger] preset_views()[k]).1, gains),
        preset_with(gains, from) is None ==> forall|k: int|
            from <= k < preset_views().len() ==> !same_gains(
                (#[trigger] preset_views()[k]).1,
                gains,
            ),
    decreases preset_views().len() - from,
{
    if from < preset_views().len() && !same_gains(preset_views()[from].1, gains) {
        lemma_preset_with(gains, from + 1);
    }
}

/// The gains of presets are the decibels of the table: they keep the order,
/// nothing is zero but zero itself, and a cut is a boost mirrored.
pub proof fn lemma_gains_are_whole_decibels(a: int, b: int)
    requires
        -3 <= a <= 6 || a == 8,
        -3 <= b <= 6 || b == 8,
    ensures
        whole_gain(a).less(whole_gain(b)) <==> a < b,
        whole_gain(a).same(Double { bits: 0 }) <==> a == 0,
        -3 <= a <= 3 ==> whole_gain(a).magnitude() == whole_gain(-a).magnitude(),
        whole_gain(1).bits == 0x3FF0_0000_0000_0000,
        whole_gain(8).bits == 0x4020_0000_0000_0000,
{
}

/// Gains are the same when there are as many of them and each is the same
/// number as its counterpart; the two zeros are one.
pub proof fn lemma_gains_are_compared_one_by_one(a: Seq<Double>, b: Seq<Double>, k: int)
    ensures
        same_gains(a, b) && 0 <= k < a.len() ==> a.len() == b.len() && a[k].same(b[k]),
        0 <= k < a.len() && a.len() == b.len() && !a[k].same(b[k]) ==> !same_gains(a, b),
        a.len() != b.len() ==> !same_gains(a, b),
        (forall|i: int| 0 <= i < a.len() ==> !(#[trigger] a[i]).nan()) ==> same_gains(a, a),
{
}

/// What cannot be set is refused with what is expected.
pub proof fn lemma_bad_settings_are_told(eq: EqStateView, gains: Seq<Double>)
    ensures
        gains.len() != 10 ==> merged(eq, None, None, Some(gains)) == Err::<EqStateView, Seq<char>>(
            "bands: ожидается ровно 10 значений в диапазоне -15..=15 дБ"@,
        ),
{
}

/// A preset that is not in the table is refused by its name.
pub proof fn lemma_unknown_presets_are_named(eq: EqStateView, name: Seq<char>)
    requires
        !preset_table().map_values(|row: (Seq<char>, Seq<int>)| row.0).contains(name),
    ensures
        merged(eq, None, Some(name), None) == Err::<EqStateView, Seq<char>>(
            "неизвестный пресет эквалайзера "@ + quoted(name)
                + "; точное имя из списка пресетов (см. eq_presets)"@,
        ),
{
    lemma_preset_named(name, 0);
    if let Some(n) = preset_named(name, 0) {
        let names = preset_table().map_values(|row: (Seq<char>, Seq<int>)| row.0);
        assert(names[n] == name);
        assert(names.contains(name));
    }
}

} // verus!
