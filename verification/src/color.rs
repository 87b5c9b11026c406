//! Colour temperature and brightness of a display, and the gamma ramps that
//! realise them.
//!
//! All quantities are exact fixed-point numbers. A brightness is counted in
//! millionths ([`FULL_BRIGHTNESS`] is 1.0), an intensity of a colour channel in
//! units of 10^-10 ([`FULL_INTENSITY`] is 1.0), and a sample of a ramp is the
//! product of both with the position in the ramp, cut down to 16 bits.

use crate::util::{lemma_lerp_between, lerp, lerp_scaled};
use vstd::arithmetic::div_mod::{
    lemma_div_is_ordered, lemma_div_multiples_vanish_quotient, lemma_fundamental_div_mod,
};
use vstd::arithmetic::mul::lemma_mul_is_associative;
use vstd::prelude::*;

verus! {

/// The lowest colour temperature a [`Config`] can hold, in kelvins.
pub const MIN_TEMPERATURE: u32 = 1000;

/// The highest colour temperature a [`Config`] can hold, in kelvins.
pub const MAX_TEMPERATURE: u32 = 25000;

/// The colour temperature that leaves colours as they are, in kelvins.
pub const NEUTRAL_TEMPERATURE: u32 = 6500;

/// The brightness 1.0: a brightness is a number of millionths.
pub const FULL_BRIGHTNESS: u32 = 1000000;

/// Two temperatures further apart than this many kelvins differ materially.
pub const TEMPERATURE_TOLERANCE: u32 = 10;

/// Two brightnesses further apart than this (0.01) differ materially.
pub const BRIGHTNESS_TOLERANCE: u32 = 10000;

/// The distance between two rows of [`BLACK_BODY_COLOR`], in kelvins.
pub const TABLE_STEP: u32 = 100;

/// The number of rows of [`BLACK_BODY_COLOR`].
pub const TABLE_ROWS: usize = 242;

/// The intensity 1.0 as [`BLACK_BODY_COLOR`] writes it.
pub const TABLE_UNIT: u32 = 100000000;

/// The intensity 1.0 of a [`WhitePoint`]: `TABLE_UNIT * TABLE_STEP`.
pub const FULL_INTENSITY: u64 = 10000000000;

/// One more than the largest sample of a ramp.
pub const SAMPLE_RANGE: u32 = 65536;

/// What remains of `FULL_BRIGHTNESS * FULL_INTENSITY` once `SAMPLE_RANGE` is
/// divided out of it.
const REDUCED_UNIT: u128 = 152587890625;

/// A colour temperature together with a brightness.
///
/// The temperature always lies in `MIN_TEMPERATURE..=MAX_TEMPERATURE` and the
/// brightness in `0..=FULL_BRIGHTNESS`: [`Config::new`] admits nothing else and
/// a value never changes.
#[derive(Clone, Copy, Debug, PartialEq, Eq, Structural)]
pub struct Config {
    temperature: u32,
    brightness: u32,
}

/// Whether a temperature and a brightness may form a [`Config`].
pub open spec fn in_range(temperature: int, brightness: int) -> bool {
    MIN_TEMPERATURE <= temperature <= MAX_TEMPERATURE && 0 <= brightness <= FULL_BRIGHTNESS
}

/// The distance between two numbers.
pub open spec fn distance(a: int, b: int) -> int {
    if a <= b {
        b - a
    } else {
        a - b
    }
}

impl Config {
    /// The temperature and the brightness are in range.
    #[verifier::type_invariant]
    pub open spec fn valid(self) -> bool {
        in_range(self.temperature() as int, self.brightness() as int)
    }

    /// The colour temperature in kelvins.
    pub closed spec fn spec_temperature(self) -> u32 {
        self.temperature
    }

    /// The brightness in millionths.
    pub closed spec fn spec_brightness(self) -> u32 {
        self.brightness
    }

    /// The configuration with the given temperature and brightness.
    pub closed spec fn of(temperature: int, brightness: int) -> Config
        recommends
            in_range(temperature, brightness),
    {
        Config { temperature: temperature as u32, brightness: brightness as u32 }
    }

    /// A temperature and a brightness in range make a valid configuration
    /// that holds the two.
    pub proof fn lemma_of(temperature: int, brightness: int)
        requires
            in_range(temperature, brightness),
        ensures
            Config::of(temperature, brightness).temperature() == temperature,
            Config::of(temperature, brightness).brightness() == brightness,
            Config::of(temperature, brightness).valid(),
    {
    }

    /// A configuration is the one of its temperature and its brightness:
    /// there is nothing else to it.
    pub proof fn lemma_is_of(self)
        ensures
            self == Config::of(self.temperature() as int, self.brightness() as int),
    {
    }

    /// Builds a `Config` from a temperature in kelvins and a brightness in
    /// millionths, provided both are in range.
    pub fn new(temperature: u32, brightness: u32) -> (config: Option<Config>)
        ensures
            config is Some <==> in_range(temperature as int, brightness as int),
            config matches Some(c) ==> c.temperature() == temperature && c.brightness()
                == brightness && c.valid() && c == Config::of(
                temperature as int,
                brightness as int,
            ),
    {
        if MIN_TEMPERATURE <= temperature && temperature <= MAX_TEMPERATURE && brightness
            <= FULL_BRIGHTNESS {
            Some(Config { temperature, brightness })
        } else {
            None
        }
    }

    /// The colour temperature in kelvins.
    #[verifier::when_used_as_spec(spec_temperature)]
    pub fn temperature(self) -> (temperature: u32)
        ensures
            temperature == self.spec_temperature(),
            MIN_TEMPERATURE <= temperature <= MAX_TEMPERATURE,
    {
        proof {
            use_type_invariant(self);
        }
        self.temperature
    }

    /// The brightness in millionths.
    #[verifier::when_used_as_spec(spec_brightness)]
    pub fn brightness(self) -> (brightness: u32)
        ensures
            brightness == self.spec_brightness(),
            brightness <= FULL_BRIGHTNESS,
    {
        proof {
            use_type_invariant(self);
        }
        self.brightness
    }

    /// Whether two configurations are far enough apart to be worth a new
    /// gamma table: the temperatures by more than [`TEMPERATURE_TOLERANCE`] or
    /// the brightnesses by more than [`BRIGHTNESS_TOLERANCE`].
    pub open spec fn materially_different(self, other: Config) -> bool {
        ||| distance(self.temperature() as int, other.temperature() as int)
            > TEMPERATURE_TOLERANCE
        ||| distance(self.brightness() as int, other.brightness() as int) > BRIGHTNESS_TOLERANCE
    }

    /// Whether `self` differs materially from `other`.
    pub fn different_from(self, other: Config) -> (different: bool)
        ensures
            different == self.materially_different(other),
    {
        let temperatures_apart: u32 = if self.temperature <= other.temperature {
            other.temperature - self.temperature
        } else {
            self.temperature - other.temperature
        };
        let brightnesses_apart: u32 = if self.brightness <= other.brightness {
            other.brightness - self.brightness
        } else {
            self.brightness - other.brightness
        };
        temperatures_apart > TEMPERATURE_TOLERANCE || brightnesses_apart > BRIGHTNESS_TOLERANCE
    }

    /// No configuration differs materially from itself.
    pub proof fn lemma_not_different_from_itself(self)
        ensures
            !self.materially_different(self),
    {
    }

    /// Whether two configurations differ materially does not depend on the
    /// order in which they are given.
    pub proof fn lemma_different_is_symmetric(self, other: Config)
        ensures
            self.materially_different(other) == other.materially_different(self),
    {
    }
}

impl Default for Config {
    /// The neutral temperature at full brightness.
    fn default() -> (config: Config)
        ensures
            config.temperature() == NEUTRAL_TEMPERATURE,
            config.brightness() == FULL_BRIGHTNESS,
    {
        Config { temperature: NEUTRAL_TEMPERATURE, brightness: FULL_BRIGHTNESS }
    }
}

/// The colour of a black body: the intensities of red, green and blue, in
/// units of 1 / [`TABLE_UNIT`], every [`TABLE_STEP`] kelvins from 1000 K to
/// 25100 K.
pub const BLACK_BODY_COLOR: [(u32, u32, u32); TABLE_ROWS] = [
    (100000000, 18172716, 0),  // 1000 K
    (100000000, 25503671, 0),
    (100000000, 30942099, 0),
    (100000000, 35357379, 0),
    (100000000, 39091524, 0),
    (100000000, 42322816, 0),
    (100000000, 45159884, 0),
    (100000000, 47675916, 0),
    (100000000, 49923747, 0),
    (100000000, 51943421, 0),
    (100000000, 54360078, 8679949),
    (100000000, 56618736, 14065513),
    (100000000, 58734976, 18362641),
    (100000000, 60724493, 22137978),
    (100000000, 62600248, 25591950),
    (100000000, 64373109, 28819679),
    (100000000, 66052319, 31873863),
    (100000000, 67645822, 34786758),
    (100000000, 69160518, 37579588),
    (100000000, 70602449, 40267128),
    (100000000, 71976951, 42860152),
    (100000000, 73288760, 45366838),
    (100000000, 74542112, 47793608),
    (100000000, 75740814, 50145662),
    (100000000, 76888303, 52427322),
    (100000000, 77987699, 54642268),
    (100000000, 79041843, 56793692),
    (100000000, 80053332, 58884417),
    (100000000, 81024551, 60916971),
    (100000000, 81957693, 62893653),
    (100000000, 82854786, 64816570),
    (100000000, 83717703, 66687674),
    (100000000, 84548188, 68508786),
    (100000000, 85347859, 70281616),
    (100000000, 86118227, 72007777),
    (100000000, 86860704, 73688797),
    (100000000, 87576611, 75326132),
    (100000000, 88267187, 76921169),
    (100000000, 88933596, 78475236),
    (100000000, 89576933, 79989606),
    (100000000, 90198230, 81465502),
    (100000000, 90963069, 82838210),
    (100000000, 91710889, 84190889),
    (100000000, 92441842, 85523742),
    (100000000, 93156127, 86836903),
    (100000000, 93853986, 88130458),
    (100000000, 94535695, 89404470),
    (100000000, 95201559, 90658983),
    (100000000, 95851906, 91894041),
    (100000000, 96487079, 93109690),
    (100000000, 97107439, 94305985),
    (100000000, 97713351, 95482993),
    (100000000, 98305189, 96640795),
    (100000000, 98883326, 97779486),
    (100000000, 99448139, 98899179),
    (100000000, 100000000, 100000000),  // 6500 K
    (98947904, 99348723, 100000000),
    (97940448, 98722715, 100000000),
    (96975025, 98120637, 100000000),
    (96049223, 97541240, 100000000),
    (95160805, 96983355, 100000000),
    (94303638, 96443333, 100000000),
    (93480451, 95923080, 100000000),
    (92689056, 95421394, 100000000),
    (91927697, 94937330, 100000000),
    (91194747, 94470005, 100000000),
    (90488690, 94018594, 100000000),
    (89808115, 93582323, 100000000),
    (89151710, 93160469, 100000000),
    (88518247, 92752354, 100000000),
    (87906581, 92357340, 100000000),
    (87315640, 91974827, 100000000),
    (86744421, 91604254, 100000000),
    (86191983, 91245088, 100000000),
    (85657444, 90896831, 100000000),
    (85139976, 90559011, 100000000),
    (84638799, 90231183, 100000000),
    (84153180, 89912926, 100000000),
    (83682430, 89603843, 100000000),
    (83225897, 89303558, 100000000),
    (82782969, 89011714, 100000000),
    (82353066, 88727974, 100000000),
    (81935641, 88452017, 100000000),
    (81530175, 88183541, 100000000),
    (81136180, 87922257, 100000000),
    (80753191, 87667891, 100000000),
    (80380769, 87420182, 100000000),
    (80018497, 87178882, 100000000),
    (79665980, 86943756, 100000000),
    (79322843, 86714579, 100000000),
    (78988728, 86491137, 100000000),  // 10000 K
    (78663296, 86273225, 100000000),
    (78346225, 86060650, 100000000),
    (78037207, 85853224, 100000000),
    (77735950, 85650771, 100000000),
    (77442176, 85453121, 100000000),
    (77155617, 85260112, 100000000),
    (76876022, 85071588, 100000000),
    (76603147, 84887402, 100000000),
    (76336762, 84707411, 100000000),
    (76076645, 84531479, 100000000),
    (75822586, 84359476, 100000000),
    (75574383, 84191277, 100000000),
    (75331843, 84026762, 100000000),
    (75094780, 83865816, 100000000),
    (74863017, 83708329, 100000000),
    (74636386, 83554194, 100000000),
    (74414722, 83403311, 100000000),
    (74197871, 83255582, 100000000),
    (73985682, 83110912, 100000000),
    (73778012, 82969211, 100000000),
    (73574723, 82830393, 100000000),
    (73375683, 82694373, 100000000),
    (73180765, 82561071, 100000000),
    (72989845, 82430410, 100000000),
    (72802807, 82302316, 100000000),
    (72619537, 82176715, 100000000),
    (72439927, 82053539, 100000000),
    (72263872, 81932722, 100000000),
    (72091270, 81814197, 100000000),
    (71922025, 81697905, 100000000),
    (71756043, 81583783, 100000000),
    (71593234, 81471775, 100000000),
    (71433510, 81361825, 100000000),
    (71276788, 81253878, 100000000),
    (71122987, 81147883, 100000000),
    (70972029, 81043789, 100000000),
    (70823838, 80941546, 100000000),
    (70678342, 80841109, 100000000),
    (70535469, 80742432, 100000000),
    (70395153, 80645469, 100000000),
    (70257327, 80550180, 100000000),
    (70121928, 80456522, 100000000),
    (69988894, 80364455, 100000000),
    (69858167, 80273941, 100000000),
    (69729688, 80184943, 100000000),
    (69603402, 80097423, 100000000),
    (69479255, 80011347, 100000000),
    (69357196, 79926681, 100000000),
    (69237173, 79843391, 100000000),
    (69119138, 79761446, 100000000),  // 15000 K
    (69003044, 79680814, 100000000),
    (68888844, 79601466, 100000000),
    (68776494, 79523371, 100000000),
    (68665951, 79446502, 100000000),
    (68557173, 79370830, 100000000),
    (68450119, 79296330, 100000000),
    (68344751, 79222975, 100000000),
    (68241029, 79150740, 100000000),
    (68138918, 79079600, 100000000),
    (68038380, 79009531, 100000000),
    (67939381, 78940511, 100000000),
    (67841888, 78872517, 100000000),
    (67745866, 78805526, 100000000),
    (67651284, 78739518, 100000000),
    (67558112, 78674472, 100000000),
    (67466317, 78610368, 100000000),
    (67375872, 78547186, 100000000),
    (67286748, 78484907, 100000000),
    (67198916, 78423512, 100000000),
    (67112350, 78362984, 100000000),
    (67027024, 78303305, 100000000),
    (66942911, 78244457, 100000000),
    (66859988, 78186425, 100000000),
    (66778228, 78129191, 100000000),
    (66697610, 78072740, 100000000),
    (66618110, 78017057, 100000000),
    (66539706, 77962127, 100000000),
    (66462376, 77907934, 100000000),
    (66386098, 77854465, 100000000),
    (66310852, 77801705, 100000000),
    (66236618, 77749642, 100000000),
    (66163375, 77698261, 100000000),
    (66091106, 77647551, 100000000),
    (66019791, 77597498, 100000000),
    (65949412, 77548090, 100000000),
    (65879952, 77499315, 100000000),
    (65811392, 77451161, 100000000),
    (65743716, 77403618, 100000000),
    (65676908, 77356673, 100000000),
    (65610952, 77310316, 100000000),
    (65545831, 77264537, 100000000),
    (65481530, 77219324, 100000000),
    (65418036, 77174669, 100000000),
    (65355332, 77130560, 100000000),
    (65293404, 77086988, 100000000),
    (65232240, 77043944, 100000000),
    (65171824, 77001419, 100000000),
    (65112144, 76959404, 100000000),
    (65053187, 76917889, 100000000),
    (64994941, 76876866, 100000000),  // 20000 K
    (64937392, 76836326, 100000000),
    (64880528, 76796263, 100000000),
    (64824339, 76756666, 100000000),
    (64768812, 76717529, 100000000),
    (64713935, 76678844, 100000000),
    (64659699, 76640603, 100000000),
    (64606092, 76602798, 100000000),
    (64553103, 76565424, 100000000),
    (64500722, 76528472, 100000000),
    (64448939, 76491935, 100000000),
    (64397745, 76455808, 100000000),
    (64347129, 76420082, 100000000),
    (64297081, 76384753, 100000000),
    (64247594, 76349813, 100000000),
    (64198657, 76315256, 100000000),
    (64150261, 76281076, 100000000),
    (64102399, 76247267, 100000000),
    (64055061, 76213824, 100000000),
    (64008239, 76180740, 100000000),
    (63961926, 76148010, 100000000),
    (63916112, 76115628, 100000000),
    (63870790, 76083590, 100000000),
    (63825953, 76051890, 100000000),
    (63781592, 76020522, 100000000),
    (63737701, 75989482, 100000000),
    (63694273, 75958764, 100000000),
    (63651299, 75928365, 100000000),
    (63608774, 75898278, 100000000),
    (63566691, 75868499, 100000000),
    (63525042, 75839025, 100000000),
    (63483822, 75809849, 100000000),
    (63443023, 75780969, 100000000),
    (63402641, 75752379, 100000000),
    (63362667, 75724075, 100000000),
    (63323097, 75696053, 100000000),
    (63283925, 75668310, 100000000),
    (63245144, 75640840, 100000000),
    (63206749, 75613641, 100000000),
    (63168735, 75586707, 100000000),
    (63131096, 75560036, 100000000),
    (63093826, 75533624, 100000000),
    (63056920, 75507467, 100000000),
    (63020374, 75481562, 100000000),
    (62984181, 75455904, 100000000),
    (62948337, 75430491, 100000000),
    (62912838, 75405319, 100000000),
    (62877678, 75380385, 100000000),
    (62842852, 75355685, 100000000),
    (62808356, 75331217, 100000000),
    (62774186, 75306977, 100000000),  // 25000 K
    (62740336, 75282962, 100000000),  // 25100 K
];

/// The relative intensities of red, green and blue that make up white at some
/// colour temperature, in units of 1 / [`FULL_INTENSITY`].
#[derive(Clone, Copy, Debug, PartialEq, Eq, Structural)]
pub struct WhitePoint {
    pub red: u64,
    pub green: u64,
    pub blue: u64,
}

impl WhitePoint {
    /// No channel is brighter than [`FULL_INTENSITY`].
    pub open spec fn bounded(self) -> bool {
        self.red <= FULL_INTENSITY && self.green <= FULL_INTENSITY && self.blue
            <= FULL_INTENSITY
    }
}

/// Whether [`BLACK_BODY_COLOR`] brackets a temperature: it holds a row at or
/// below it and the row after that.
pub open spec fn tabulated(temperature: int) -> bool {
    MIN_TEMPERATURE <= temperature < MIN_TEMPERATURE + (TABLE_ROWS - 1) * TABLE_STEP
}

/// The row of [`BLACK_BODY_COLOR`] at or just below a temperature.
pub open spec fn table_index(temperature: int) -> int {
    (temperature - MIN_TEMPERATURE) / (TABLE_STEP as int)
}

/// One channel between two rows of the table, `step` kelvins above the first.
pub open spec fn blend(from: u32, to: u32, step: int) -> u64 {
    lerp_scaled(from as int, to as int, step, TABLE_STEP as int) as u64
}

/// The white point at a temperature: each channel read off the straight line
/// through the two rows of [`BLACK_BODY_COLOR`] that bracket the temperature.
pub open spec fn white_point_at(temperature: int) -> WhitePoint
    recommends
        tabulated(temperature),
{
    let from = BLACK_BODY_COLOR[table_index(temperature)];
    let to = BLACK_BODY_COLOR[table_index(temperature) + 1];
    let step = temperature % (TABLE_STEP as int);
    WhitePoint {
        red: blend(from.0, to.0, step),
        green: blend(from.1, to.1, step),
        blue: blend(from.2, to.2, step),
    }
}

/// No entry of the table exceeds [`TABLE_UNIT`].
pub proof fn lemma_table_bounded(index: int)
    requires
        0 <= index < TABLE_ROWS,
    ensures
        BLACK_BODY_COLOR[index].0 <= TABLE_UNIT,
        BLACK_BODY_COLOR[index].1 <= TABLE_UNIT,
        BLACK_BODY_COLOR[index].2 <= TABLE_UNIT,
{
}

/// Between two entries of the table lies an intensity of at most
/// [`FULL_INTENSITY`], and it is the exact value of the interpolation.
proof fn lemma_blend_bounded(from: u32, to: u32, step: int)
    requires
        from <= TABLE_UNIT,
        to <= TABLE_UNIT,
        0 <= step <= TABLE_STEP,
    ensures
        0 <= lerp_scaled(from as int, to as int, step, TABLE_STEP as int) <= FULL_INTENSITY,
        blend(from, to, step) == lerp_scaled(from as int, to as int, step, TABLE_STEP as int),
{
    lemma_lerp_between(from as int, to as int, step, TABLE_STEP as int);
}

/// Every white point that the table gives is bounded.
pub proof fn lemma_white_point_bounded(temperature: int)
    requires
        tabulated(temperature),
    ensures
        white_point_at(temperature).bounded(),
{
    let index = table_index(temperature);
    let step = temperature % (TABLE_STEP as int);
    lemma_table_bounded(index);
    lemma_table_bounded(index + 1);
    let from = BLACK_BODY_COLOR[index];
    let to = BLACK_BODY_COLOR[index + 1];
    lemma_blend_bounded(from.0, to.0, step);
    lemma_blend_bounded(from.1, to.1, step);
    lemma_blend_bounded(from.2, to.2, step);
}

/// At the neutral temperature white is made of all three channels in full.
pub proof fn lemma_neutral_white_point()
    ensures
        white_point_at(NEUTRAL_TEMPERATURE as int) == (WhitePoint {
            red: FULL_INTENSITY,
            green: FULL_INTENSITY,
            blue: FULL_INTENSITY,
        }),
{
    assert(table_index(NEUTRAL_TEMPERATURE as int) == 55);
    assert(BLACK_BODY_COLOR[55] == (100000000u32, 100000000u32, 100000000u32));
}

/// One channel of a white point between two rows of the table.
fn blend_channel(from: u32, to: u32, step: u32) -> (intensity: u64)
    requires
        from <= TABLE_UNIT,
        to <= TABLE_UNIT,
        step <= TABLE_STEP,
    ensures
        intensity == blend(from, to, step as int),
        intensity <= FULL_INTENSITY,
{
    proof {
        lemma_blend_bounded(from, to, step as int);
    }
    let scaled: i128 = lerp(from, to, step as u64, TABLE_STEP as u64);
    scaled as u64
}

/// The white point at a temperature in kelvins, or `None` where the table
/// does not bracket the temperature.
pub fn get_white_point(temperature: u32) -> (white_point: Option<WhitePoint>)
    ensures
        white_point is Some <==> tabulated(temperature as int),
        white_point matches Some(w) ==> w == white_point_at(temperature as int) && w.bounded(),
{
    if temperature < MIN_TEMPERATURE {
        return None;
    }
    let from_index: usize = ((temperature - MIN_TEMPERATURE) / TABLE_STEP) as usize;
    if from_index + 1 >= TABLE_ROWS {
        return None;
    }
    let step: u32 = temperature % TABLE_STEP;
    let from: (u32, u32, u32) = BLACK_BODY_COLOR[from_index];
    let to: (u32, u32, u32) = BLACK_BODY_COLOR[from_index + 1];
    proof {
        lemma_table_bounded(from_index as int);
        lemma_table_bounded(from_index + 1);
    }
    Some(
        WhitePoint {
            red: blend_channel(from.0, to.0, step),
            green: blend_channel(from.1, to.1, step),
            blue: blend_channel(from.2, to.2, step),
        },
    )
}

/// A number between 0 and 1, given as a fraction, on the full scale of a 16-bit
/// sample: multiplied by [`SAMPLE_RANGE`], rounded down, and held at the
/// largest sample where it would pass it.
pub open spec fn full_scale(numerator: int, denominator: int) -> int
    recommends
        0 <= numerator,
        0 < denominator,
{
    let scaled = numerator * SAMPLE_RANGE / denominator;
    if scaled >= SAMPLE_RANGE {
        SAMPLE_RANGE - 1
    } else {
        scaled
    }
}

/// The sample at `index` of a ramp of `ramp_size` samples for one channel:
/// `index / ramp_size`, times the brightness, times the intensity of the
/// channel, on the full scale of a sample.
pub open spec fn ramp_sample(index: int, ramp_size: int, brightness: int, intensity: int) -> int
    recommends
        0 <= index < ramp_size,
        0 <= brightness <= FULL_BRIGHTNESS,
        0 <= intensity <= FULL_INTENSITY,
{
    full_scale(
        index * brightness * intensity,
        ramp_size * (FULL_BRIGHTNESS as int * FULL_INTENSITY as int),
    )
}

/// The whole ramp of one channel.
pub open spec fn channel_ramp(ramp_size: int, brightness: int, intensity: int) -> Seq<u16> {
    Seq::new(
        ramp_size as nat,
        |index: int| ramp_sample(index, ramp_size, brightness, intensity) as u16,
    )
}

/// The samples of all three ramps of a configuration, red first, then green,
/// then blue, each of `size` samples.
pub open spec fn generated_samples(config: Config, size: int) -> Seq<u16> {
    let white_point = white_point_at(config.temperature() as int);
    let brightness = config.brightness() as int;
    channel_ramp(size, brightness, white_point.red as int) + channel_ramp(
        size,
        brightness,
        white_point.green as int,
    ) + channel_ramp(size, brightness, white_point.blue as int)
}

/// Every sample fits in 16 bits.
pub proof fn lemma_sample_fits(index: int, ramp_size: int, brightness: int, intensity: int)
    requires
        0 <= index,
        0 < ramp_size,
        0 <= brightness,
        0 <= intensity,
    ensures
        0 <= ramp_sample(index, ramp_size, brightness, intensity) < SAMPLE_RANGE,
{
    let unit = FULL_BRIGHTNESS as int * FULL_INTENSITY as int;
    let numerator = index * brightness * intensity;
    let denominator = ramp_size * unit;
    assert(0 <= numerator && 0 < denominator) by (nonlinear_arith)
        requires
            0 <= index,
            0 <= brightness,
            0 <= intensity,
            0 < ramp_size,
            0 < unit,
            numerator == index * brightness * intensity,
            denominator == ramp_size * unit,
    ;
    lemma_div_is_ordered(0, numerator * SAMPLE_RANGE, denominator);
}

/// A ramp starts at zero, whatever the brightness and the intensity.
pub proof fn lemma_sample_starts_at_zero(ramp_size: int, brightness: int, intensity: int)
    requires
        0 < ramp_size,
    ensures
        ramp_sample(0, ramp_size, brightness, intensity) == 0,
{
    let unit = FULL_BRIGHTNESS as int * FULL_INTENSITY as int;
    assert(0 * brightness * intensity == 0) by (nonlinear_arith);
    assert(0 < ramp_size * unit) by (nonlinear_arith)
        requires
            0 < ramp_size,
            0 < unit,
    ;
}

/// A ramp never falls: a later sample is at least as large as an earlier one.
pub proof fn lemma_sample_monotone(
    earlier: int,
    later: int,
    ramp_size: int,
    brightness: int,
    intensity: int,
)
    requires
        0 <= earlier <= later,
        0 < ramp_size,
        0 <= brightness,
        0 <= intensity,
    ensures
        ramp_sample(earlier, ramp_size, brightness, intensity) <= ramp_sample(
            later,
            ramp_size,
            brightness,
            intensity,
        ),
{
    let unit = FULL_BRIGHTNESS as int * FULL_INTENSITY as int;
    let denominator = ramp_size * unit;
    assert(0 < denominator) by (nonlinear_arith)
        requires
            0 < ramp_size,
            0 < unit,
            denominator == ramp_size * unit,
    ;
    assert(earlier * brightness * intensity * SAMPLE_RANGE <= later * brightness * intensity
        * SAMPLE_RANGE) by (nonlinear_arith)
        requires
            0 <= earlier <= later,
            0 <= brightness,
            0 <= intensity,
    ;
    lemma_div_is_ordered(
        earlier * brightness * intensity * SAMPLE_RANGE,
        later * brightness * intensity * SAMPLE_RANGE,
        denominator,
    );
}

/// A sample never exceeds the intensity of its channel times the brightness
/// times [`SAMPLE_RANGE`]. Here both sides are multiplied by
/// `FULL_BRIGHTNESS * FULL_INTENSITY`, in which the two factors are counted.
pub proof fn lemma_sample_bounded(index: int, ramp_size: int, brightness: int, intensity: int)
    requires
        0 <= index < ramp_size,
        0 <= brightness,
        0 <= intensity,
    ensures
        ramp_sample(index, ramp_size, brightness, intensity) * (FULL_BRIGHTNESS as int
            * FULL_INTENSITY as int) <= intensity * brightness * SAMPLE_RANGE,
{
    let unit = FULL_BRIGHTNESS as int * FULL_INTENSITY as int;
    let numerator = index * brightness * intensity;
    let denominator = ramp_size * unit;
    let product = intensity * brightness * SAMPLE_RANGE;
    assert(0 < denominator) by (nonlinear_arith)
        requires
            0 < ramp_size,
            0 < unit,
            denominator == ramp_size * unit,
    ;
    assert(0 <= numerator * SAMPLE_RANGE <= ramp_size * product) by (nonlinear_arith)
        requires
            0 <= index < ramp_size,
            0 <= brightness,
            0 <= intensity,
            numerator == index * brightness * intensity,
            product == intensity * brightness * SAMPLE_RANGE,
    ;
    let scaled = numerator * SAMPLE_RANGE / denominator;
    lemma_fundamental_div_mod(numerator * SAMPLE_RANGE, denominator);
    lemma_div_is_ordered(0, numerator * SAMPLE_RANGE, denominator);
    assert(scaled * unit <= product) by (nonlinear_arith)
        requires
            0 < ramp_size,
            0 <= scaled,
            denominator == ramp_size * unit,
            denominator * scaled <= ramp_size * product,
    ;
    let sample = ramp_sample(index, ramp_size, brightness, intensity);
    assert(sample * unit <= scaled * unit) by (nonlinear_arith)
        requires
            sample <= scaled,
            0 < unit,
    ;
}

/// A sample falls short of the exact product by less than one: within the
/// range of brightness and intensity nothing is cut off at the top, and a
/// sample is the product rounded down. Here both sides are multiplied by the
/// denominator of the product.
pub proof fn lemma_sample_rounds_down(index: int, ramp_size: int, brightness: int, intensity: int)
    requires
        0 <= index < ramp_size,
        0 <= brightness <= FULL_BRIGHTNESS,
        0 <= intensity <= FULL_INTENSITY,
    ensures
        index * brightness * intensity * SAMPLE_RANGE < (ramp_sample(
            index,
            ramp_size,
            brightness,
            intensity,
        ) + 1) * (ramp_size * (FULL_BRIGHTNESS as int * FULL_INTENSITY as int)),
{
    let unit = FULL_BRIGHTNESS as int * FULL_INTENSITY as int;
    let numerator = index * brightness * intensity;
    let denominator = ramp_size * unit;
    assert(0 < denominator) by (nonlinear_arith)
        requires
            0 < ramp_size,
            0 < unit,
            denominator == ramp_size * unit,
    ;
    assert(0 <= numerator * SAMPLE_RANGE < denominator * SAMPLE_RANGE) by (nonlinear_arith)
        requires
            0 <= index < ramp_size,
            0 <= brightness <= FULL_BRIGHTNESS,
            0 <= intensity <= FULL_INTENSITY,
            numerator == index * brightness * intensity,
            denominator == ramp_size * (FULL_BRIGHTNESS as int * FULL_INTENSITY as int),
    ;
    let scaled = numerator * SAMPLE_RANGE / denominator;
    lemma_fundamental_div_mod(numerator * SAMPLE_RANGE, denominator);
    assert(scaled < SAMPLE_RANGE) by (nonlinear_arith)
        requires
            0 < denominator,
            numerator * SAMPLE_RANGE < denominator * SAMPLE_RANGE,
            numerator * SAMPLE_RANGE == denominator * scaled + (numerator * SAMPLE_RANGE)
                % denominator,
            0 <= (numerator * SAMPLE_RANGE) % denominator,
    ;
    assert(numerator * SAMPLE_RANGE < (scaled + 1) * denominator) by (nonlinear_arith)
        requires
            numerator * SAMPLE_RANGE == denominator * scaled + (numerator * SAMPLE_RANGE)
                % denominator,
            (numerator * SAMPLE_RANGE) % denominator < denominator,
    ;
}

/// At full brightness a channel of full intensity rises in a straight line
/// from zero to just below [`SAMPLE_RANGE`].
pub proof fn lemma_sample_at_full(index: int, ramp_size: int)
    requires
        0 <= index < ramp_size,
    ensures
        ramp_sample(index, ramp_size, FULL_BRIGHTNESS as int, FULL_INTENSITY as int) == index
            * SAMPLE_RANGE / ramp_size,
{
    let unit = FULL_BRIGHTNESS as int * FULL_INTENSITY as int;
    assert(index * (FULL_BRIGHTNESS as int) * (FULL_INTENSITY as int) * SAMPLE_RANGE == unit * (
    index * SAMPLE_RANGE)) by (nonlinear_arith)
        requires
            unit == FULL_BRIGHTNESS as int * FULL_INTENSITY as int,
    ;
    assert(ramp_size * unit == unit * ramp_size) by (nonlinear_arith);
    assert(0 <= index * SAMPLE_RANGE < ramp_size * SAMPLE_RANGE) by (nonlinear_arith)
        requires
            0 <= index < ramp_size,
    ;
    lemma_div_multiples_vanish_quotient(unit, index * SAMPLE_RANGE, ramp_size);
    lemma_div_is_ordered(index * SAMPLE_RANGE, ramp_size * SAMPLE_RANGE - 1, ramp_size);
    lemma_fundamental_div_mod(ramp_size * SAMPLE_RANGE - 1, ramp_size);
    assert((ramp_size * SAMPLE_RANGE - 1) / ramp_size < SAMPLE_RANGE) by (nonlinear_arith)
        requires
            0 < ramp_size,
            ramp_size * SAMPLE_RANGE - 1 == ramp_size * ((ramp_size * SAMPLE_RANGE - 1)
                / ramp_size) + (ramp_size * SAMPLE_RANGE - 1) % ramp_size,
            0 <= (ramp_size * SAMPLE_RANGE - 1) % ramp_size,
    ;
}

/// Of two channels, the one with the lower intensity never has the larger
/// sample at an index.
pub proof fn lemma_sample_grows_with_intensity(
    index: int,
    ramp_size: int,
    brightness: int,
    lower: int,
    higher: int,
)
    requires
        0 <= index,
        0 < ramp_size,
        0 <= brightness,
        0 <= lower <= higher,
    ensures
        ramp_sample(index, ramp_size, brightness, lower) <= ramp_sample(
            index,
            ramp_size,
            brightness,
            higher,
        ),
{
    let unit = FULL_BRIGHTNESS as int * FULL_INTENSITY as int;
    let denominator = ramp_size * unit;
    assert(0 < denominator) by (nonlinear_arith)
        requires
            0 < ramp_size,
            0 < unit,
            denominator == ramp_size * unit,
    ;
    assert(index * brightness * lower * SAMPLE_RANGE <= index * brightness * higher
        * SAMPLE_RANGE) by (nonlinear_arith)
        requires
            0 <= index,
            0 <= brightness,
            0 <= lower <= higher,
    ;
    lemma_div_is_ordered(
        index * brightness * lower * SAMPLE_RANGE,
        index * brightness * higher * SAMPLE_RANGE,
        denominator,
    );
}

/// One sample of a ramp.
fn sample(index: usize, ramp_size: usize, brightness: u32, intensity: u64) -> (sample: u16)
    requires
        0 < ramp_size,
        brightness <= FULL_BRIGHTNESS,
        intensity <= FULL_INTENSITY,
    ensures
        sample == ramp_sample(index as int, ramp_size as int, brightness as int, intensity as int),
{
    assert(brightness as int * intensity as int <= FULL_BRIGHTNESS as int * FULL_INTENSITY as int)
        by (nonlinear_arith)
        requires
            brightness <= FULL_BRIGHTNESS,
            intensity <= FULL_INTENSITY,
    ;
    let weight: u128 = brightness as u128 * intensity as u128;
    assert(index as int * weight as int <= usize::MAX as int * (FULL_BRIGHTNESS as int
        * FULL_INTENSITY as int)) by (nonlinear_arith)
        requires
            0 <= index <= usize::MAX,
            0 <= weight <= FULL_BRIGHTNESS as int * FULL_INTENSITY as int,
    ;
    let numerator: u128 = index as u128 * weight;
    assert(0 < ramp_size as int * REDUCED_UNIT as int <= usize::MAX as int * REDUCED_UNIT as int)
        by (nonlinear_arith)
        requires
            0 < ramp_size <= usize::MAX,
    ;
    let denominator: u128 = ramp_size as u128 * REDUCED_UNIT;
    let scaled: u128 = numerator / denominator;
    proof {
        lemma_mul_is_associative(index as int, brightness as int, intensity as int);
        assert(SAMPLE_RANGE as int * denominator as int == ramp_size as int * (
        FULL_BRIGHTNESS as int * FULL_INTENSITY as int)) by (nonlinear_arith)
            requires
                denominator == ramp_size as int * 152587890625,
                FULL_BRIGHTNESS as int * FULL_INTENSITY as int == 65536 * 152587890625,
                SAMPLE_RANGE == 65536,
        ;
        assert(SAMPLE_RANGE as int * numerator as int == numerator as int * SAMPLE_RANGE as int)
            by (nonlinear_arith);
        lemma_div_multiples_vanish_quotient(
            SAMPLE_RANGE as int,
            numerator as int,
            denominator as int,
        );
    }
    if scaled > u16::MAX as u128 {
        u16::MAX
    } else {
        scaled as u16
    }
}

/// The gamma ramps of one output: a ramp of as many 16-bit samples for each of
/// red, green and blue, held one after the other in that order.
#[derive(Debug)]
pub struct Ramps {
    data: Vec<u16>,
}

/// The less significant byte of a sample.
pub open spec fn low_byte(sample: u16) -> u8 {
    (sample % 256) as u8
}

/// The more significant byte of a sample.
pub open spec fn high_byte(sample: u16) -> u8 {
    (sample / 256) as u8
}

/// The samples as bytes, each with its less significant byte first.
pub open spec fn little_endian(samples: Seq<u16>) -> Seq<u8> {
    Seq::new(
        2 * samples.len(),
        |at: int|
            if at % 2 == 0 {
                low_byte(samples[at / 2])
            } else {
                high_byte(samples[at / 2])
            },
    )
}

/// The samples as bytes, each with its more significant byte first.
pub open spec fn big_endian(samples: Seq<u16>) -> Seq<u8> {
    Seq::new(
        2 * samples.len(),
        |at: int|
            if at % 2 == 0 {
                high_byte(samples[at / 2])
            } else {
                low_byte(samples[at / 2])
            },
    )
}

/// Calls `bytemuck::cast_slice` to see a slice of `u16` as a slice of `u8`.
///
/// Trusted: the result is the memory of the samples, so each sample gives two
/// bytes in the byte order of the machine, which is either of the two there
/// are. From `u16` to `u8` the cast has no alignment or length to fail on.
#[verifier::external_body]
fn cast_samples(samples: &[u16]) -> (bytes: &[u8])
    ensures
        bytes@ == little_endian(samples@) || bytes@ == big_endian(samples@),
{
    bytemuck::cast_slice(samples)
}

impl Ramps {
    /// All samples: the red ramp, then the green one, then the blue one.
    pub closed spec fn samples(&self) -> Seq<u16> {
        self.data@
    }

    /// The three ramps have one length.
    pub open spec fn wf(&self) -> bool {
        self.samples().len() % 3 == 0
    }

    /// The number of samples in each of the three ramps.
    pub open spec fn size(&self) -> int {
        self.samples().len() as int / 3
    }

    /// The ramp of the red channel.
    pub open spec fn red(&self) -> Seq<u16> {
        self.samples().subrange(0, self.size())
    }

    /// The ramp of the green channel.
    pub open spec fn green(&self) -> Seq<u16> {
        self.samples().subrange(self.size(), 2 * self.size())
    }

    /// The ramp of the blue channel.
    pub open spec fn blue(&self) -> Seq<u16> {
        self.samples().subrange(2 * self.size(), 3 * self.size())
    }

    /// Whether the ramps are those of `config`: each channel rises with the
    /// brightness and with its share of the white point of the temperature.
    pub open spec fn generated_by(&self, config: Config) -> bool {
        let white_point = white_point_at(config.temperature() as int);
        let brightness = config.brightness() as int;
        &&& self.wf()
        &&& self.red() == channel_ramp(self.size(), brightness, white_point.red as int)
        &&& self.green() == channel_ramp(self.size(), brightness, white_point.green as int)
        &&& self.blue() == channel_ramp(self.size(), brightness, white_point.blue as int)
    }

    /// The samples are the three ramps one after the other.
    pub proof fn lemma_samples_are_channels(&self)
        requires
            self.wf(),
        ensures
            self.samples() == self.red() + self.green() + self.blue(),
            self.samples().len() == 3 * self.size(),
            self.red().len() == self.size(),
            self.green().len() == self.size(),
            self.blue().len() == self.size(),
    {
        assert(self.samples() =~= self.red() + self.green() + self.blue());
    }

    /// Ramps are those of a configuration exactly when their samples are the
    /// ones generated for it at their size.
    pub proof fn lemma_generated_samples(&self, config: Config)
        requires
            self.wf(),
        ensures
            self.generated_by(config) <==> self.samples() == generated_samples(
                config,
                self.size(),
            ),
    {
        self.lemma_samples_are_channels();
        let white_point = white_point_at(config.temperature() as int);
        let brightness = config.brightness() as int;
        let red = channel_ramp(self.size(), brightness, white_point.red as int);
        let green = channel_ramp(self.size(), brightness, white_point.green as int);
        let blue = channel_ramp(self.size(), brightness, white_point.blue as int);
        if self.samples() == generated_samples(config, self.size()) {
            assert(self.red() =~= red);
            assert(self.green() =~= green);
            assert(self.blue() =~= blue);
        }
    }

    /// Generation is a function of the configuration and the size: two sets
    /// of ramps of one size that were generated by one configuration hold the
    /// same samples, and so the same bytes in either byte order.
    pub proof fn lemma_generated_alike(&self, other: &Ramps, config: Config)
        requires
            self.generated_by(config),
            other.generated_by(config),
            self.size() == other.size(),
        ensures
            self.samples() == other.samples(),
            little_endian(self.samples()) == little_endian(other.samples()),
            big_endian(self.samples()) == big_endian(other.samples()),
    {
        self.lemma_samples_are_channels();
        other.lemma_samples_are_channels();
    }

    /// In generated ramps every channel starts at zero.
    pub proof fn lemma_generated_starts_at_zero(&self, config: Config)
        requires
            self.generated_by(config),
            0 < self.size(),
        ensures
            self.red()[0] == 0,
            self.green()[0] == 0,
            self.blue()[0] == 0,
    {
        let white_point = white_point_at(config.temperature() as int);
        let brightness = config.brightness() as int;
        lemma_sample_starts_at_zero(self.size(), brightness, white_point.red as int);
        lemma_sample_starts_at_zero(self.size(), brightness, white_point.green as int);
        lemma_sample_starts_at_zero(self.size(), brightness, white_point.blue as int);
    }

    /// In generated ramps no channel ever falls from one index to a later one.
    pub proof fn lemma_generated_rises(&self, config: Config, earlier: int, later: int)
        requires
            self.generated_by(config),
            0 <= earlier <= later < self.size(),
        ensures
            self.red()[earlier] <= self.red()[later],
            self.green()[earlier] <= self.green()[later],
            self.blue()[earlier] <= self.blue()[later],
    {
        let white_point = white_point_at(config.temperature() as int);
        let brightness = config.brightness() as int;
        let size = self.size();
        lemma_sample_monotone(earlier, later, size, brightness, white_point.red as int);
        lemma_sample_monotone(earlier, later, size, brightness, white_point.green as int);
        lemma_sample_monotone(earlier, later, size, brightness, white_point.blue as int);
        lemma_sample_fits(earlier, size, brightness, white_point.red as int);
        lemma_sample_fits(earlier, size, brightness, white_point.green as int);
        lemma_sample_fits(earlier, size, brightness, white_point.blue as int);
        lemma_sample_fits(later, size, brightness, white_point.red as int);
        lemma_sample_fits(later, size, brightness, white_point.green as int);
        lemma_sample_fits(later, size, brightness, white_point.blue as int);
    }

    /// In generated ramps no sample exceeds the intensity of its channel
    /// times the brightness times [`SAMPLE_RANGE`] (both sides multiplied by
    /// `FULL_BRIGHTNESS * FULL_INTENSITY`), and none passes the largest
    /// sample.
    pub proof fn lemma_generated_bounded(&self, config: Config, index: int)
        requires
            self.generated_by(config),
            0 <= index < self.size(),
        ensures
            self.red()[index] * (FULL_BRIGHTNESS as int * FULL_INTENSITY as int) <= white_point_at(
                config.temperature() as int,
            ).red * config.brightness() * SAMPLE_RANGE,
            self.green()[index] * (FULL_BRIGHTNESS as int * FULL_INTENSITY as int)
                <= white_point_at(config.temperature() as int).green * config.brightness()
                * SAMPLE_RANGE,
            self.blue()[index] * (FULL_BRIGHTNESS as int * FULL_INTENSITY as int)
                <= white_point_at(config.temperature() as int).blue * config.brightness()
                * SAMPLE_RANGE,
            self.red()[index] < SAMPLE_RANGE,
            self.green()[index] < SAMPLE_RANGE,
            self.blue()[index] < SAMPLE_RANGE,
    {
        let white_point = white_point_at(config.temperature() as int);
        let brightness = config.brightness() as int;
        let size = self.size();
        lemma_sample_bounded(index, size, brightness, white_point.red as int);
        lemma_sample_bounded(index, size, brightness, white_point.green as int);
        lemma_sample_bounded(index, size, brightness, white_point.blue as int);
        lemma_sample_fits(index, size, brightness, white_point.red as int);
        lemma_sample_fits(index, size, brightness, white_point.green as int);
        lemma_sample_fits(index, size, brightness, white_point.blue as int);
    }

    /// In generated ramps every sample is the exact product of position,
    /// brightness and intensity on the scale of a sample, rounded down: it
    /// falls short of the product by less than one.
    pub proof fn lemma_generated_close(&self, config: Config, index: int)
        requires
            self.generated_by(config),
            config.valid(),
            0 <= index < self.size(),
        ensures
            ({
                let white_point = white_point_at(config.temperature() as int);
                let scale = self.size() * (FULL_BRIGHTNESS as int * FULL_INTENSITY as int);
                let position = index * config.brightness() * SAMPLE_RANGE;
                &&& position * white_point.red < (self.red()[index] + 1) * scale
                &&& position * white_point.green < (self.green()[index] + 1) * scale
                &&& position * white_point.blue < (self.blue()[index] + 1) * scale
            }),
    {
        let white_point = white_point_at(config.temperature() as int);
        let brightness = config.brightness() as int;
        let size = self.size();
        lemma_white_point_bounded(config.temperature() as int);
        lemma_sample_rounds_down(index, size, brightness, white_point.red as int);
        lemma_sample_rounds_down(index, size, brightness, white_point.green as int);
        lemma_sample_rounds_down(index, size, brightness, white_point.blue as int);
        lemma_sample_fits(index, size, brightness, white_point.red as int);
        lemma_sample_fits(index, size, brightness, white_point.green as int);
        lemma_sample_fits(index, size, brightness, white_point.blue as int);
        assert(index * brightness * SAMPLE_RANGE * white_point.red == index * brightness
            * white_point.red * SAMPLE_RANGE) by (nonlinear_arith);
        assert(index * brightness * SAMPLE_RANGE * white_point.green == index * brightness
            * white_point.green * SAMPLE_RANGE) by (nonlinear_arith);
        assert(index * brightness * SAMPLE_RANGE * white_point.blue == index * brightness
            * white_point.blue * SAMPLE_RANGE) by (nonlinear_arith);
    }

    /// At the neutral temperature and full brightness the three ramps are one
    /// straight line from zero to just below [`SAMPLE_RANGE`].
    pub proof fn lemma_generated_neutral(&self, config: Config, index: int)
        requires
            self.generated_by(config),
            config.temperature() == NEUTRAL_TEMPERATURE,
            config.brightness() == FULL_BRIGHTNESS,
            0 <= index < self.size(),
        ensures
            self.red()[index] == index * SAMPLE_RANGE / self.size(),
            self.green()[index] == self.red()[index],
            self.blue()[index] == self.red()[index],
    {
        lemma_neutral_white_point();
        lemma_sample_at_full(index, self.size());
        lemma_sample_fits(
            index,
            self.size(),
            FULL_BRIGHTNESS as int,
            FULL_INTENSITY as int,
        );
    }

    /// Ramps of `num_ramps` samples per channel, all zero.
    pub fn new(num_ramps: usize) -> (ramps: Ramps)
        requires
            num_ramps * 3 <= usize::MAX,
        ensures
            ramps.wf(),
            ramps.size() == num_ramps,
            ramps.samples() == Seq::new(3 * num_ramps as nat, |at: int| 0u16),
    {
        let ramps = Ramps { data: vec![0u16; num_ramps * 3] };
        assert(ramps.samples() =~= Seq::new(3 * num_ramps as nat, |at: int| 0u16));
        ramps
    }

    /// The number of samples in each of the three ramps.
    pub fn ramp_size(&self) -> (ramp_size: usize)
        ensures
            ramp_size == self.size(),
    {
        self.data.len() / 3
    }

    /// The three ramps, to be written to.
    pub fn rgb_slices(&mut self) -> (channels: (&mut [u16], &mut [u16], &mut [u16]))
        requires
            old(self).wf(),
        ensures
            channels.0@ == old(self).red(),
            channels.1@ == old(self).green(),
            channels.2@ == old(self).blue(),
            final(self).samples() == final(channels.0)@ + final(channels.1)@ + final(channels.2)@,
    {
        let ramp_size: usize = self.ramp_size();
        let (red, rest) = self.data.split_at_mut(ramp_size);
        let (green, blue) = rest.split_at_mut(ramp_size);
        (red, green, blue)
    }

    /// The three ramps, to be read.
    pub fn channels(&self) -> (channels: (&[u16], &[u16], &[u16]))
        requires
            self.wf(),
        ensures
            channels.0@ == self.red(),
            channels.1@ == self.green(),
            channels.2@ == self.blue(),
    {
        let ramp_size: usize = self.ramp_size();
        let (red, rest) = self.data.as_slice().split_at(ramp_size);
        let (green, blue) = rest.split_at(ramp_size);
        (red, green, blue)
    }

    /// The samples as the bytes that a gamma table is handed over in: the red
    /// ramp, then the green one, then the blue one, two bytes to a sample in
    /// the byte order of the machine.
    pub fn as_bytes(&self) -> (bytes: &[u8])
        ensures
            bytes@ == little_endian(self.samples()) || bytes@ == big_endian(self.samples()),
            bytes@.len() == 2 * self.samples().len(),
            self.wf() ==> bytes@.len() == 6 * self.size(),
    {
        cast_samples(self.data.as_slice())
    }
}

impl Config {
    /// Fills `ramps` with the ramps of this configuration.
    pub fn generate_ramps(self, ramps: &mut Ramps)
        requires
            old(ramps).wf(),
        ensures
            final(ramps).size() == old(ramps).size(),
            final(ramps).generated_by(self),
    {
        let temperature: u32 = self.temperature();
        let brightness: u32 = self.brightness();
        // The table brackets every temperature that a `Config` can hold.
        let white_point: WhitePoint = get_white_point(temperature).unwrap();
        let ramp_size: usize = ramps.ramp_size();
        let (red, green, blue) = ramps.rgb_slices();
        let mut index: usize = 0;
        while index < ramp_size
            invariant
                index <= ramp_size,
                red@.len() == ramp_size,
                green@.len() == ramp_size,
                blue@.len() == ramp_size,
                brightness <= FULL_BRIGHTNESS,
                white_point.bounded(),
                forall|at: int|
                    0 <= at < index ==> red@[at] == ramp_sample(
                        at,
                        ramp_size as int,
                        brightness as int,
                        white_point.red as int,
                    ) as u16,
                forall|at: int|
                    0 <= at < index ==> green@[at] == ramp_sample(
                        at,
                        ramp_size as int,
                        brightness as int,
                        white_point.green as int,
                    ) as u16,
                forall|at: int|
                    0 <= at < index ==> blue@[at] == ramp_sample(
                        at,
                        ramp_size as int,
                        brightness as int,
                        white_point.blue as int,
                    ) as u16,
            decreases ramp_size - index,
        {
            red[index] = sample(index, ramp_size, brightness, white_point.red);
            green[index] = sample(index, ramp_size, brightness, white_point.green);
            blue[index] = sample(index, ramp_size, brightness, white_point.blue);
            index += 1;
        }
        let ghost reds = red@;
        let ghost greens = green@;
        let ghost blues = blue@;
        proof {
            assert(ramps.samples() == reds + greens + blues);
            assert(ramps.samples().len() == 3 * ramp_size);
            assert(ramps.red() =~= reds);
            assert(ramps.green() =~= greens);
            assert(ramps.blue() =~= blues);
            assert(reds =~= channel_ramp(
                ramp_size as int,
                brightness as int,
                white_point.red as int,
            ));
            assert(greens =~= channel_ramp(
                ramp_size as int,
                brightness as int,
                white_point.green as int,
            ));
            assert(blues =~= channel_ramp(
                ramp_size as int,
                brightness as int,
                white_point.blue as int,
            ));
        }
    }
}

} // verus!
