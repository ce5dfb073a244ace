use vstd::prelude::*;

verus! {

/// Kinds of weather.
#[derive(Debug, Clone, Copy, PartialEq, Eq, Structural)]
pub enum WeatherType {
    Clear,
    PartlyCloudy,
    Cloudy,
    Overcast,
    Rain,
    HeavyRain,
    Thunderstorm,
    Snow,
    HeavySnow,
    Fog,
    Sandstorm,
}

/// Display name of a kind of weather.
pub open spec fn weather_name_spec(w: WeatherType) -> Seq<char> {
    match w {
        WeatherType::Clear => "Clear"@,
        WeatherType::PartlyCloudy => "Partly Cloudy"@,
        WeatherType::Cloudy => "Cloudy"@,
        WeatherType::Overcast => "Overcast"@,
        WeatherType::Rain => "Rain"@,
        WeatherType::HeavyRain => "Heavy Rain"@,
        WeatherType::Thunderstorm => "Thunderstorm"@,
        WeatherType::Snow => "Snow"@,
        WeatherType::HeavySnow => "Heavy Snow"@,
        WeatherType::Fog => "Fog"@,
        WeatherType::Sandstorm => "Sandstorm"@,
    }
}

/// The kinds of weather the weather may turn into from `w`, in the order of
/// their cumulative chances.
pub open spec fn transitions_spec(w: WeatherType) -> Seq<WeatherType> {
    match w {
        WeatherType::Clear => seq![WeatherType::Clear, WeatherType::PartlyCloudy, WeatherType::Cloudy],
        WeatherType::PartlyCloudy => seq![
            WeatherType::Clear,
            WeatherType::PartlyCloudy,
            WeatherType::Cloudy,
            WeatherType::Overcast,
        ],
        WeatherType::Cloudy => seq![
            WeatherType::PartlyCloudy,
            WeatherType::Cloudy,
            WeatherType::Overcast,
            WeatherType::Rain,
        ],
        WeatherType::Overcast => seq![
            WeatherType::Cloudy,
            WeatherType::Overcast,
            WeatherType::Rain,
            WeatherType::HeavyRain,
            WeatherType::Thunderstorm,
        ],
        WeatherType::Rain => seq![
            WeatherType::Cloudy,
            WeatherType::Overcast,
            WeatherType::Rain,
            WeatherType::HeavyRain,
            WeatherType::Thunderstorm,
        ],
        WeatherType::HeavyRain => seq![
            WeatherType::Overcast,
            WeatherType::Rain,
            WeatherType::HeavyRain,
            WeatherType::Thunderstorm,
        ],
        WeatherType::Thunderstorm => seq![
            WeatherType::Overcast,
            WeatherType::Rain,
            WeatherType::HeavyRain,
            WeatherType::Thunderstorm,
        ],
        WeatherType::Snow => seq![
            WeatherType::Cloudy,
            WeatherType::Overcast,
            WeatherType::Snow,
            WeatherType::HeavySnow,
        ],
        WeatherType::HeavySnow => seq![WeatherType::Overcast, WeatherType::Snow, WeatherType::HeavySnow],
        WeatherType::Fog => seq![WeatherType::Clear, WeatherType::PartlyCloudy, WeatherType::Fog],
        WeatherType::Sandstorm => seq![
            WeatherType::Clear,
            WeatherType::PartlyCloudy,
            WeatherType::Sandstorm,
        ],
    }
}

/// Cumulative chances, in percent, of the transitions of `w`, in the order of
/// `transitions_spec(w)`: entry `i` is the chance that the weather turns into
/// one of the first `i + 1` kinds. The last entry is always 100.
pub open spec fn thresholds_spec(w: WeatherType) -> Seq<u32> {
    match w {
        WeatherType::Clear => seq![30u32, 80u32, 100u32],
        WeatherType::PartlyCloudy => seq![20u32, 60u32, 90u32, 100u32],
        WeatherType::Cloudy => seq![20u32, 50u32, 80u32, 100u32],
        WeatherType::Overcast => seq![20u32, 50u32, 80u32, 90u32, 100u32],
        WeatherType::Rain => seq![20u32, 50u32, 80u32, 90u32, 100u32],
        WeatherType::HeavyRain => seq![20u32, 60u32, 90u32, 100u32],
        WeatherType::Thunderstorm => seq![10u32, 40u32, 80u32, 100u32],
        WeatherType::Snow => seq![20u32, 50u32, 80u32, 100u32],
        WeatherType::HeavySnow => seq![20u32, 60u32, 100u32],
        WeatherType::Fog => seq![20u32, 50u32, 100u32],
        WeatherType::Sandstorm => seq![30u32, 70u32, 100u32],
    }
}

impl WeatherType {
    /// Whether rain or snow falls.
    pub open spec fn has_precipitation_spec(self) -> bool {
        match self {
            WeatherType::Rain | WeatherType::HeavyRain | WeatherType::Thunderstorm
            | WeatherType::Snow | WeatherType::HeavySnow => true,
            _ => false,
        }
    }

    /// Whether the weather is a storm.
    pub open spec fn is_storm_spec(self) -> bool {
        match self {
            WeatherType::Thunderstorm | WeatherType::HeavyRain | WeatherType::HeavySnow => true,
            _ => false,
        }
    }

    /// Display name of the weather.
    pub fn display_name(&self) -> (r: &'static str)
        ensures
            r@ == weather_name_spec(*self),
    {
        match self {
            WeatherType::Clear => "Clear",
            WeatherType::PartlyCloudy => "Partly Cloudy",
            WeatherType::Cloudy => "Cloudy",
            WeatherType::Overcast => "Overcast",
            WeatherType::Rain => "Rain",
            WeatherType::HeavyRain => "Heavy Rain",
            WeatherType::Thunderstorm => "Thunderstorm",
            WeatherType::Snow => "Snow",
            WeatherType::HeavySnow => "Heavy Snow",
            WeatherType::Fog => "Fog",
            WeatherType::Sandstorm => "Sandstorm",
        }
    }

    /// Whether rain or snow falls: rain, heavy rain, thunderstorm, snow, heavy snow.
    pub fn has_precipitation(&self) -> (r: bool)
        ensures
            r == self.has_precipitation_spec(),
    {
        match self {
            WeatherType::Rain | WeatherType::HeavyRain | WeatherType::Thunderstorm
            | WeatherType::Snow | WeatherType::HeavySnow => true,
            _ => false,
        }
    }

    /// Whether the weather is a storm: thunderstorm, heavy rain, heavy snow.
    pub fn is_storm(&self) -> (r: bool)
        ensures
            r == self.is_storm_spec(),
    {
        match self {
            WeatherType::Thunderstorm | WeatherType::HeavyRain | WeatherType::HeavySnow => true,
            _ => false,
        }
    }
}

/// The kinds of weather `current` may turn into, in draw order.
pub fn possible_weather_transitions(current: WeatherType) -> (r: Vec<WeatherType>)
    ensures
        r@ == transitions_spec(current),
{
    let r = match current {
        WeatherType::Clear => vec![WeatherType::Clear, WeatherType::PartlyCloudy, WeatherType::Cloudy],
        WeatherType::PartlyCloudy => vec![
            WeatherType::Clear,
            WeatherType::PartlyCloudy,
            WeatherType::Cloudy,
            WeatherType::Overcast,
        ],
        WeatherType::Cloudy => vec![
            WeatherType::PartlyCloudy,
            WeatherType::Cloudy,
            WeatherType::Overcast,
            WeatherType::Rain,
        ],
        WeatherType::Overcast => vec![
            WeatherType::Cloudy,
            WeatherType::Overcast,
            WeatherType::Rain,
            WeatherType::HeavyRain,
            WeatherType::Thunderstorm,
        ],
        WeatherType::Rain => vec![
            WeatherType::Cloudy,
            WeatherType::Overcast,
            WeatherType::Rain,
            WeatherType::HeavyRain,
            WeatherType::Thunderstorm,
        ],
        WeatherType::HeavyRain => vec![
            WeatherType::Overcast,
            WeatherType::Rain,
            WeatherType::HeavyRain,
            WeatherType::Thunderstorm,
        ],
        WeatherType::Thunderstorm => vec![
            WeatherType::Overcast,
            WeatherType::Rain,
            WeatherType::HeavyRain,
            WeatherType::Thunderstorm,
        ],
        WeatherType::Snow => vec![
            WeatherType::Cloudy,
            WeatherType::Overcast,
            WeatherType::Snow,
            WeatherType::HeavySnow,
        ],
        WeatherType::HeavySnow => vec![WeatherType::Overcast, WeatherType::Snow, WeatherType::HeavySnow],
        WeatherType::Fog => vec![WeatherType::Clear, WeatherType::PartlyCloudy, WeatherType::Fog],
        WeatherType::Sandstorm => vec![
            WeatherType::Clear,
            WeatherType::PartlyCloudy,
            WeatherType::Sandstorm,
        ],
    };
    assert(r@ =~= transitions_spec(current));
    r
}

/// The cumulative chances, in percent, of the transitions of `current`.
pub fn transition_thresholds(current: WeatherType) -> (r: Vec<u32>)
    ensures
        r@ == thresholds_spec(current),
{
    let r = match current {
        WeatherType::Clear => vec![30, 80, 100],
        WeatherType::PartlyCloudy => vec![20, 60, 90, 100],
        WeatherType::Cloudy => vec![20, 50, 80, 100],
        WeatherType::Overcast => vec![20, 50, 80, 90, 100],
        WeatherType::Rain => vec![20, 50, 80, 90, 100],
        WeatherType::HeavyRain => vec![20, 60, 90, 100],
        WeatherType::Thunderstorm => vec![10, 40, 80, 100],
        WeatherType::Snow => vec![20, 50, 80, 100],
        WeatherType::HeavySnow => vec![20, 60, 100],
        WeatherType::Fog => vec![20, 50, 100],
        WeatherType::Sandstorm => vec![30, 70, 100],
    };
    assert(r@ =~= thresholds_spec(current));
    r
}

/// Index of the first entry of `s` from `i` on that exceeds `k`, or `s.len()`
/// when none does.
pub open spec fn first_above(s: Seq<u32>, k: int, i: int) -> int
    decreases s.len() - i,
{
    if i < 0 || i >= s.len() {
        s.len() as int
    } else if k < s[i] {
        i
    } else {
        first_above(s, k, i + 1)
    }
}

/// Below the last entry, some entry from `i` on exceeds `k`.
pub proof fn lemma_first_above_in_range(s: Seq<u32>, k: int, i: int)
    requires
        0 <= i < s.len(),
        k < s[s.len() - 1],
    ensures
        i <= first_above(s, k, i) < s.len(),
    decreases s.len() - i,
{
    if k >= s[i] {
        lemma_first_above_in_range(s, k, i + 1);
    }
}

/// Each weather has one cumulative chance per transition, the last one 100.
pub proof fn lemma_thresholds_cover(w: WeatherType)
    ensures
        thresholds_spec(w).len() == transitions_spec(w).len(),
        thresholds_spec(w).len() > 0,
        thresholds_spec(w)[thresholds_spec(w).len() - 1] == 100,
{
}

/// The first index `i` from which `thresholds[i]` exceeds `k`.
fn first_index_above(thresholds: &Vec<u32>, k: u32) -> (r: usize)
    ensures
        r == first_above(thresholds@, k as int, 0),
{
    let mut i: usize = 0;
    while i < thresholds.len() && k >= thresholds[i]
        invariant
            i <= thresholds.len(),
            first_above(thresholds@, k as int, 0) == first_above(thresholds@, k as int, i as int),
        decreases thresholds.len() - i,
    {
        i = i + 1;
    }
    i
}

/// The weather that draw `draw` picks from the transitions of `current`,
/// each with its chance: with `k = draw % 100`, the first transition whose
/// cumulative chance exceeds `k`.
pub fn pick_weather(current: WeatherType, draw: usize) -> (r: WeatherType)
    ensures
        r == transitions_spec(current)[first_above(thresholds_spec(current), (draw % 100) as int, 0)],
{
    let possible = possible_weather_transitions(current);
    let thresholds = transition_thresholds(current);
    let k = (draw % 100) as u32;
    proof {
        lemma_thresholds_cover(current);
        lemma_first_above_in_range(thresholds@, k as int, 0);
    }
    let i = first_index_above(&thresholds, k);
    possible[i]
}

/// `rand::random::<usize>()`: a `usize` drawn from the thread-local random
/// generator. Nothing is promised of its value.
#[verifier::external_body]
fn random_draw() -> (r: usize) {
    rand::random::<usize>()
}

/// A random next weather for `current`: one of its possible transitions,
/// picked by a random draw.
pub fn choose_next_weather(current: WeatherType) -> (r: WeatherType)
    ensures
        transitions_spec(current).contains(r),
{
    let draw = random_draw();
    let r = pick_weather(current, draw);
    proof {
        let k = (draw % 100) as int;
        lemma_thresholds_cover(current);
        lemma_first_above_in_range(thresholds_spec(current), k, 0);
        assert(transitions_spec(current)[first_above(thresholds_spec(current), k, 0)] == r);
    }
    r
}

/// Every kind of weather may stay as it is: it is among its own transitions.
pub proof fn lemma_weather_may_persist(w: WeatherType)
    ensures
        transitions_spec(w).contains(w),
{
    match w {
        WeatherType::Clear => assert(transitions_spec(w)[0] == w),
        WeatherType::PartlyCloudy => assert(transitions_spec(w)[1] == w),
        WeatherType::Cloudy => assert(transitions_spec(w)[1] == w),
        WeatherType::Overcast => assert(transitions_spec(w)[1] == w),
        WeatherType::Rain => assert(transitions_spec(w)[2] == w),
        WeatherType::HeavyRain => assert(transitions_spec(w)[2] == w),
        WeatherType::Thunderstorm => assert(transitions_spec(w)[3] == w),
        WeatherType::Snow => assert(transitions_spec(w)[2] == w),
        WeatherType::HeavySnow => assert(transitions_spec(w)[2] == w),
        WeatherType::Fog => assert(transitions_spec(w)[2] == w),
        WeatherType::Sandstorm => assert(transitions_spec(w)[2] == w),
    }
}

} // verus!
