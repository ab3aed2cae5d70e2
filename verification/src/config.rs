//! Scenario configuration: the configuration records, the default
//! scenario, and the helpers that read numbers and names out of a
//! configuration text.

use vstd::prelude::*;
use vstd::string::StrSliceExecFns;
use vstd::string::StringExecFns;

verus! {

/// A whole scenario configuration.
#[derive(Debug, Clone)]
pub struct Config {
    pub name: String,
    pub random_seed: u64,
    pub spatial: SpatialConfig,
    pub population: PopulationConfig,
    pub snapshot: SnapshotConfig,
    pub logging: LoggingConfig,
}

/// Size of the tile grid.
#[derive(Debug, Clone, Copy, PartialEq, Eq, Structural)]
pub struct SpatialConfig {
    pub level: u32,
    pub width_tiles: u32,
    pub height_tiles: u32,
}

/// How many people the scenario starts with.
#[derive(Debug, Clone, Copy, PartialEq, Eq, Structural)]
pub struct PopulationConfig {
    pub persons: u64,
    pub use_representative_households: bool,
}

/// Snapshot cadence and encoding.
#[derive(Debug, Clone)]
pub struct SnapshotConfig {
    pub every_ticks: u64,
    pub compression: String,
}

/// Logging verbosity and reporting cadence.
#[derive(Debug, Clone)]
pub struct LoggingConfig {
    pub level: String,
    pub kpi_interval_days: u64,
}

pub fn default_compression() -> (r: String)
    ensures
        r@ == "none"@,
{
    "none".to_owned()
}

pub fn default_log_level() -> (r: String)
    ensures
        r@ == "info"@,
{
    "info".to_owned()
}

pub fn default_kpi_interval() -> (r: u64)
    ensures
        r == 30,
{
    30
}

impl Default for LoggingConfig {
    fn default() -> (r: Self)
        ensures
            r.level@ == "info"@,
            r.kpi_interval_days == 30,
    {
        Self { level: default_log_level(), kpi_interval_days: default_kpi_interval() }
    }
}

impl Config {
    /// The built-in island scenario.
    pub fn tiny_island() -> (r: Self)
        ensures
            r.name@ == "tiny_island"@,
            r.random_seed == 7,
            r.spatial == (SpatialConfig { level: 7u32, width_tiles: 128u32, height_tiles: 64u32 }),
            r.population == (PopulationConfig {
                persons: 50000u64,
                use_representative_households: true,
            }),
            r.snapshot.every_ticks == 30,
            r.snapshot.compression@ == "none"@,
            r.logging.level@ == "info"@,
            r.logging.kpi_interval_days == 30,
    {
        Self {
            name: "tiny_island".to_owned(),
            random_seed: 7,
            spatial: SpatialConfig { level: 7, width_tiles: 128, height_tiles: 64 },
            population: PopulationConfig { persons: 50000, use_representative_households: true },
            snapshot: SnapshotConfig { every_ticks: 30, compression: "none".to_owned() },
            logging: LoggingConfig { level: "info".to_owned(), kpi_interval_days: 30 },
        }
    }
}

/// A scenario text that cannot be used.
#[derive(Debug)]
pub enum ScenarioError {
    /// The text does not parse; the field says what was expected.
    Parse(String),
    /// The scenario is inconsistent; the field says how.
    Validation(String),
}

/// Whether a character counts as whitespace.  Names the result of
/// `char::is_whitespace`, which depends on the character alone.
pub uninterp spec fn is_unicode_space(c: char) -> bool;

/// A text without its leading whitespace.
pub open spec fn spec_trim_front(s: Seq<char>) -> Seq<char>
    decreases s.len(),
{
    if s.len() > 0 && is_unicode_space(s.first()) {
        spec_trim_front(s.drop_first())
    } else {
        s
    }
}

/// A text without its trailing whitespace.
pub open spec fn spec_trim_back(s: Seq<char>) -> Seq<char>
    decreases s.len(),
{
    if s.len() > 0 && is_unicode_space(s.last()) {
        spec_trim_back(s.drop_last())
    } else {
        s
    }
}

/// A text without leading and trailing whitespace.
pub open spec fn spec_trim(s: Seq<char>) -> Seq<char> {
    spec_trim_back(spec_trim_front(s))
}

/// Relies on `char::is_whitespace`: whether a character is whitespace
/// is a property of the character alone.
#[verifier::external_body]
fn is_whitespace_char(c: char) -> (r: bool)
    ensures
        r == is_unicode_space(c),
{
    c.is_whitespace()
}

/// Skipping a run of leading whitespace that ends at the first
/// non-whitespace character trims the front.
proof fn lemma_trim_front_eq(s: Seq<char>, k: int)
    requires
        0 <= k <= s.len(),
        forall|j: int| 0 <= j < k ==> is_unicode_space(#[trigger] s[j]),
        k == s.len() || !is_unicode_space(s[k]),
    ensures
        spec_trim_front(s) == s.subrange(k, s.len() as int),
    decreases k,
{
    if k == 0 {
        assert(s.subrange(0, s.len() as int) =~= s);
    } else {
        let rest = s.drop_first();
        assert(rest =~= s.subrange(1, s.len() as int));
        lemma_trim_front_eq(rest, k - 1);
        assert(rest.subrange(k - 1, rest.len() as int) =~= s.subrange(k, s.len() as int));
    }
}

/// Dropping a run of trailing whitespace that starts after the last
/// non-whitespace character trims the back.
proof fn lemma_trim_back_eq(s: Seq<char>, m: int)
    requires
        0 <= m <= s.len(),
        forall|j: int| m <= j < s.len() ==> is_unicode_space(#[trigger] s[j]),
        m == 0 || !is_unicode_space(s[m - 1]),
    ensures
        spec_trim_back(s) == s.subrange(0, m),
    decreases s.len() - m,
{
    if m == s.len() {
        assert(s.subrange(0, m) =~= s);
    } else {
        assert(is_unicode_space(s.last()));
        lemma_trim_back_eq(s.drop_last(), m);
        assert(s.drop_last().subrange(0, m) =~= s.subrange(0, m));
    }
}

/// A text without leading and trailing whitespace, as an exact slice of
/// the input.
#[verifier::loop_isolation(false)]
fn trim_str<'a>(s: &'a str) -> (r: &'a str)
    ensures
        r@ == spec_trim(s@),
{
    let n = s.unicode_len();
    let mut start: usize = 0;
    while start < n && is_whitespace_char(s.get_char(start))
        invariant
            0 <= start <= n,
            forall|j: int| 0 <= j < start ==> is_unicode_space(#[trigger] s@[j]),
        decreases n - start,
    {
        start += 1;
    }
    let mut end: usize = n;
    while end > start && is_whitespace_char(s.get_char(end - 1))
        invariant
            start <= end <= n,
            forall|j: int| end <= j < n ==> is_unicode_space(#[trigger] s@[j]),
        decreases end,
    {
        end -= 1;
    }
    proof {
        lemma_trim_front_eq(s@, start as int);
        let t = s@.subrange(start as int, n as int);
        lemma_trim_back_eq(t, end - start);
        assert(t.subrange(0, end - start) =~= s@.subrange(start as int, end as int));
    }
    s.substring_char(start, end)
}

/// Whether a character is a decimal digit.
pub open spec fn spec_is_digit(c: char) -> bool {
    48 <= c as u32 <= 57
}

/// The numeric value of a digit text, most significant digit first.
pub open spec fn spec_digits_value(s: Seq<char>) -> int
    decreases s.len(),
{
    if s.len() == 0 {
        0
    } else {
        spec_digits_value(s.drop_last()) * 10 + (s.last() as u32 - 48)
    }
}

/// Every character of the text is a decimal digit.
pub open spec fn spec_all_digits(s: Seq<char>) -> bool {
    forall|i: int| 0 <= i < s.len() ==> spec_is_digit(#[trigger] s[i])
}

/// The digit part of an integer text: the text after an optional
/// leading plus sign.
pub open spec fn spec_int_body(s: Seq<char>) -> Seq<char> {
    if s.len() > 0 && s.first() == '+' {
        s.drop_first()
    } else {
        s
    }
}

/// A trimmed integer text parses exactly when its digit part is
/// non-empty, all digits, and in range.
pub open spec fn spec_parses_as_u64(s: Seq<char>, bound: int) -> bool {
    let body = spec_int_body(spec_trim(s));
    &&& body.len() > 0
    &&& spec_all_digits(body)
    &&& spec_digits_value(body) <= bound
}

/// Once an accumulated value is past the bound, appending digits keeps
/// it past the bound.
proof fn lemma_digits_value_grows(s: Seq<char>, k: int, bound: int)
    requires
        0 <= k <= s.len(),
        bound >= 48,
        spec_digits_value(s.subrange(0, k)) > bound,
    ensures
        spec_digits_value(s) > bound,
    decreases s.len() - k,
{
    if k == s.len() {
        assert(s.subrange(0, k) =~= s);
    } else {
        let prefix = s.subrange(0, k);
        let next = s.subrange(0, k + 1);
        assert(next.drop_last() =~= prefix);
        assert(next.last() == s[k]);
        assert(spec_digits_value(next) == spec_digits_value(prefix) * 10 + (s[k] as u32 - 48));
        assert(spec_digits_value(prefix) * 10 > bound * 10) by (nonlinear_arith)
            requires
                spec_digits_value(prefix) > bound,
        ;
        lemma_digits_value_grows(s, k + 1, bound);
    }
}

/// Read an unsigned 64-bit integer from a text, as the scenario loader
/// does: surrounding whitespace is ignored and one leading plus sign is
/// accepted.
#[verifier::loop_isolation(false)]
pub fn parse_u64(value: &str) -> (r: Result<u64, ScenarioError>)
    ensures
        r matches Ok(v) ==> spec_parses_as_u64(value@, u64::MAX as int) && v == spec_digits_value(
            spec_int_body(spec_trim(value@)),
        ),
        r is Err ==> !spec_parses_as_u64(value@, u64::MAX as int),
        r matches Err(e) ==> e is Parse,
{
    let trimmed = trim_str(value);
    let n = trimmed.unicode_len();
    let ghost body = spec_int_body(trimmed@);
    let start: usize = if n > 0 && trimmed.get_char(0) == '+' {
        1
    } else {
        0
    };
    proof {
        assert(body =~= trimmed@.subrange(start as int, n as int));
    }
    if start >= n {
        return Err(ScenarioError::Parse(parse_int_message(value)));
    }
    let mut v: u64 = 0;
    let mut j: usize = start;
    while j < n
        invariant
            start <= j <= n,
            spec_all_digits(body.subrange(0, j - start)),
            v == spec_digits_value(body.subrange(0, j - start)),
        decreases n - j,
    {
        let c = trimmed.get_char(j);
        let d = c as u32;
        proof {
            assert(body.subrange(0, j - start + 1).drop_last() =~= body.subrange(0, j - start));
            assert(body.subrange(0, j - start + 1).last() == trimmed@[j as int]);
        }
        if d < 48 || d > 57 {
            proof {
                assert(!spec_is_digit(body[j - start]));
            }
            return Err(ScenarioError::Parse(parse_int_message(value)));
        }
        let digit = (d - 48) as u64;
        if v > (u64::MAX - digit) / 10 {
            proof {
                assert(spec_digits_value(body.subrange(0, j - start + 1)) > u64::MAX) by {
                    assert(v * 10 + digit > u64::MAX) by (nonlinear_arith)
                        requires
                            v > (u64::MAX - digit) / 10,
                            digit < 10,
                    ;
                }
                lemma_digits_value_grows(body, j - start + 1, u64::MAX as int);
            }
            return Err(ScenarioError::Parse(parse_int_message(value)));
        }
        proof {
            assert(v * 10 + digit <= u64::MAX) by (nonlinear_arith)
                requires
                    v <= (u64::MAX - digit) / 10,
                    digit < 10,
            ;
        }
        v = v * 10 + digit;
        j += 1;
    }
    proof {
        assert(body.subrange(0, n - start) =~= body);
    }
    Ok(v)
}

/// Read an unsigned 32-bit integer from a text, as `parse_u64` does.
#[verifier::loop_isolation(false)]
pub fn parse_u32(value: &str) -> (r: Result<u32, ScenarioError>)
    ensures
        r matches Ok(v) ==> spec_parses_as_u64(value@, u32::MAX as int) && v == spec_digits_value(
            spec_int_body(spec_trim(value@)),
        ),
        r is Err ==> !spec_parses_as_u64(value@, u32::MAX as int),
        r matches Err(e) ==> e is Parse,
{
    match parse_u64(value) {
        Ok(v) => {
            if v <= u32::MAX as u64 {
                Ok(v as u32)
            } else {
                Err(ScenarioError::Parse(parse_int_message(value)))
            }
        },
        Err(e) => {
            proof {
                let body = spec_int_body(spec_trim(value@));
                if spec_parses_as_u64(value@, u32::MAX as int) {
                    assert(spec_digits_value(body) <= u64::MAX);
                }
            }
            Err(e)
        },
    }
}

/// The report of an unreadable integer.
fn parse_int_message(value: &str) -> (r: String) {
    let mut message: String = "unable to parse integer from '".to_owned();
    message.append(value);
    message.append("'");
    message
}

/// A name value without surrounding whitespace and without one pair of
/// surrounding double quotes.
pub open spec fn spec_clean_string(s: Seq<char>) -> Seq<char> {
    let t = spec_trim(s);
    if t.len() >= 2 && t.first() == '"' && t.last() == '"' {
        t.subrange(1, t.len() - 1)
    } else {
        t
    }
}

/// Read a name value: trim it, and strip one pair of surrounding
/// double quotes if both are present.
pub fn clean_string(value: &str) -> (r: String)
    ensures
        r@ == spec_clean_string(value@),
{
    let trimmed = trim_str(value);
    let n = trimmed.unicode_len();
    if n >= 2 && trimmed.get_char(0) == '"' && trimmed.get_char(n - 1) == '"' {
        let inner = trimmed.substring_char(1, n - 1);
        inner.to_owned()
    } else {
        trimmed.to_owned()
    }
}

/// Why a set of world references is inconsistent.
pub open spec fn spec_world_refs_valid(
    tile_ids: Seq<u32>,
    population_tiles: Seq<u32>,
    population_counts: Seq<u32>,
) -> bool {
    &&& tile_ids.len() > 0
    &&& tile_ids.no_duplicates()
    &&& population_tiles.len() > 0
    &&& forall|i: int|
        0 <= i < population_tiles.len() ==> tile_ids.contains(#[trigger] population_tiles[i])
    &&& exists|i: int| 0 <= i < population_counts.len() && population_counts[i] > 0
}

/// Check the references of a scenario world: it has tiles with unique
/// ids, population groups that sit on known tiles, and people in at
/// least one group.  Returns the first failure, in the order of those
/// checks.
#[verifier::loop_isolation(false)]
pub fn validate_world_refs(
    tile_ids: &Vec<u32>,
    population_tiles: &Vec<u32>,
    population_counts: &Vec<u32>,
) -> (r: Result<(), ScenarioError>)
    requires
        population_tiles@.len() == population_counts@.len(),
    ensures
        r is Ok <==> spec_world_refs_valid(tile_ids@, population_tiles@, population_counts@),
        r matches Err(e) ==> e is Validation,
{
    if tile_ids.len() == 0 {
        return Err(
            ScenarioError::Validation("scenario must define at least one tile".to_owned()),
        );
    }
    let mut i: usize = 1;
    while i < tile_ids.len()
        invariant
            1 <= i <= tile_ids.len() || tile_ids.len() == 0,
            tile_ids@.subrange(0, i as int).no_duplicates(),
        decreases tile_ids.len() - i,
    {
        let mut j: usize = 0;
        while j < i
            invariant
                0 <= j <= i < tile_ids.len(),
                tile_ids@.subrange(0, i as int).no_duplicates(),
                forall|k: int| 0 <= k < j ==> tile_ids@[k] != tile_ids@[i as int],
            decreases i - j,
        {
            if tile_ids[j] == tile_ids[i] {
                proof {
                    assert(!tile_ids@.no_duplicates());
                }
                return Err(
                    ScenarioError::Validation("tile id defined more than once".to_owned()),
                );
            }
            j += 1;
        }
        proof {
            let prefix = tile_ids@.subrange(0, i as int + 1);
            assert forall|p: int, q: int|
                0 <= p < q < prefix.len() implies prefix[p] != prefix[q] by {
                if q == i as int {
                    assert(tile_ids@[p] != tile_ids@[i as int]);
                } else {
                    assert(tile_ids@.subrange(0, i as int)[p] == prefix[p]);
                    assert(tile_ids@.subrange(0, i as int)[q] == prefix[q]);
                }
            }
        }
        i += 1;
    }
    proof {
        assert(tile_ids@.subrange(0, tile_ids@.len() as int) =~= tile_ids@);
    }
    if population_tiles.len() == 0 {
        return Err(
            ScenarioError::Validation(
                "scenario must define at least one population group".to_owned(),
            ),
        );
    }
    let mut p: usize = 0;
    while p < population_tiles.len()
        invariant
            0 <= p <= population_tiles@.len(),
            forall|k: int|
                0 <= k < p ==> tile_ids@.contains(#[trigger] population_tiles@[k]),
        decreases population_tiles.len() - p,
    {
        if !contains_u32(tile_ids, population_tiles[p]) {
            return Err(
                ScenarioError::Validation("population references unknown tile id".to_owned()),
            );
        }
        p += 1;
    }
    let mut c: usize = 0;
    while c < population_counts.len()
        invariant
            0 <= c <= population_counts@.len(),
            forall|k: int| 0 <= k < c ==> population_counts@[k] == 0,
        decreases population_counts.len() - c,
    {
        if population_counts[c] > 0 {
            return Ok(());
        }
        c += 1;
    }
    proof {
        assert(!(exists|i: int| 0 <= i < population_counts@.len() && population_counts@[i] > 0));
    }
    Err(ScenarioError::Validation("total population must be greater than zero".to_owned()))
}

/// Whether the list contains the id.
#[verifier::loop_isolation(false)]
fn contains_u32(v: &Vec<u32>, x: u32) -> (r: bool)
    ensures
        r == v@.contains(x),
{
    let mut i: usize = 0;
    while i < v.len()
        invariant
            0 <= i <= v.len(),
            forall|j: int| 0 <= j < i ==> v@[j] != x,
        decreases v.len() - i,
    {
        if v[i] == x {
            return true;
        }
        i += 1;
    }
    proof {
        assert(!v@.contains(x)) by {
            if v@.contains(x) {
                let w = choose|w: int| 0 <= w < v@.len() && v@[w] == x;
            }
        }
    }
    false
}

} // verus!
