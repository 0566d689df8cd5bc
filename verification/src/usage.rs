//! The normalizer: vendor-varying raw usage records are turned into one
//! canonical token-count shape. Absent fields default to zero; there is no
//! failure mode. Sums saturate at `u32::MAX` instead of overflowing.

use vstd::prelude::*;

verus! {

/// Nested token details as some vendors report them, with the cached token
/// count the normalizer may fall back to.
#[derive(Debug, Clone, Default, PartialEq)]
pub struct PromptTokensDetails {
    pub cached_tokens: Option<u32>,
    pub audio_tokens: Option<u32>,
}

/// A raw usage record as read from a log line: every field optional, since
/// vendors disagree about which ones they write.
#[derive(Debug, Clone, Default, PartialEq)]
pub struct RawUsage {
    pub input_tokens: Option<u32>,
    pub output_tokens: Option<u32>,
    pub total_tokens: Option<u32>,
    pub cache_creation_input_tokens: Option<u32>,
    pub cache_read_input_tokens: Option<u32>,
    pub prompt_tokens_details: Option<PromptTokensDetails>,
}

/// The canonical token-count shape, plus provenance metadata saying which
/// raw fields were present and how the total was derived.
#[derive(Debug, Clone, PartialEq)]
pub struct NormalizedUsage {
    pub input_tokens: u32,
    pub output_tokens: u32,
    pub total_tokens: u32,
    pub cache_creation_input_tokens: u32,
    pub cache_read_input_tokens: u32,
    pub calculation_source: String,
    pub raw_data_available: Vec<String>,
}

/// `a + b` capped at `u32::MAX`.
pub open spec fn spec_sat_add_u32(a: int, b: int) -> int {
    if a + b > u32::MAX {
        u32::MAX as int
    } else {
        a + b
    }
}

/// Addition of token counts that cannot overflow.
pub fn sat_add_u32(a: u32, b: u32) -> (r: u32)
    ensures
        r == spec_sat_add_u32(a as int, b as int),
{
    if a <= u32::MAX - b {
        a + b
    } else {
        u32::MAX
    }
}

/// The cache-read count the normalizer uses: the direct field when present,
/// else the nested cached-token detail, else zero.
pub open spec fn spec_cache_read(raw: RawUsage) -> int {
    match raw.cache_read_input_tokens {
        Some(n) => n as int,
        None => match raw.prompt_tokens_details {
            Some(d) => match d.cached_tokens {
                Some(n) => n as int,
                None => 0,
            },
            None => 0,
        },
    }
}

/// The sum of the four token components, saturating.
pub open spec fn spec_component_sum(raw: RawUsage) -> int {
    spec_sat_add_u32(
        spec_sat_add_u32(
            spec_sat_add_u32(
                raw.input_tokens.unwrap_or(0) as int,
                raw.output_tokens.unwrap_or(0) as int,
            ),
            spec_cache_read(raw),
        ),
        raw.cache_creation_input_tokens.unwrap_or(0) as int,
    )
}

/// The total the normalizer derives: an explicitly given positive total is
/// preferred; otherwise the component sum.
pub open spec fn spec_total_value(raw: RawUsage) -> int {
    if raw.total_tokens.unwrap_or(0) > 0 {
        raw.total_tokens.unwrap_or(0) as int
    } else {
        spec_component_sum(raw)
    }
}

/// The field names the record carried, in a fixed order.
pub open spec fn spec_available_fields(raw: RawUsage) -> Seq<Seq<char>> {
    (if raw.input_tokens is Some {
        seq!["input_tokens"@]
    } else {
        Seq::empty()
    }) + (if raw.output_tokens is Some {
        seq!["output_tokens"@]
    } else {
        Seq::empty()
    }) + (if raw.total_tokens is Some {
        seq!["total_tokens"@]
    } else {
        Seq::empty()
    }) + (if raw.cache_creation_input_tokens is Some {
        seq!["cache_creation"@]
    } else {
        Seq::empty()
    }) + (if raw.cache_read_input_tokens is Some {
        seq!["cache_read"@]
    } else {
        Seq::empty()
    })
}

/// The display token count a raw record normalizes to: its context
/// tokens when any, else its derived total, else the larger of its input
/// and output counts.
pub open spec fn spec_display_tokens(raw: RawUsage) -> int {
    let input = raw.input_tokens.unwrap_or(0) as int;
    let output = raw.output_tokens.unwrap_or(0) as int;
    let context = spec_sat_add_u32(
        spec_sat_add_u32(
            spec_sat_add_u32(input, raw.cache_creation_input_tokens.unwrap_or(0) as int),
            spec_cache_read(raw),
        ),
        output,
    );
    if context > 0 {
        context
    } else if spec_total_value(raw) > 0 {
        spec_total_value(raw)
    } else if input >= output {
        input
    } else {
        output
    }
}

/// The provenance tag for the derived total.
pub open spec fn spec_calculation_source(raw: RawUsage) -> Seq<char> {
    if raw.total_tokens.unwrap_or(0) > 0 {
        "total_tokens_direct"@
    } else if spec_component_sum(raw) > 0 {
        "total_from_components"@
    } else {
        ""@
    }
}

impl RawUsage {
    /// Convert a raw record to the canonical shape: tokens defaulted to
    /// zero, cache reads taken from the nested detail when the direct field
    /// is absent, and the total preferred over the component sum.
    pub fn normalize(self) -> (r: NormalizedUsage)
        ensures
            r.input_tokens == self.input_tokens.unwrap_or(0),
            r.output_tokens == self.output_tokens.unwrap_or(0),
            r.cache_creation_input_tokens == self.cache_creation_input_tokens.unwrap_or(0),
            r.cache_read_input_tokens == spec_cache_read(self),
            r.total_tokens == spec_total_value(self),
            r.calculation_source@ == spec_calculation_source(self),
            r.raw_data_available.deep_view() == spec_available_fields(self),
    {
        let mut available_fields: Vec<String> = Vec::new();
        if self.input_tokens.is_some() {
            available_fields.push("input_tokens".to_owned());
        }
        if self.output_tokens.is_some() {
            available_fields.push("output_tokens".to_owned());
        }
        if self.total_tokens.is_some() {
            available_fields.push("total_tokens".to_owned());
        }
        if self.cache_creation_input_tokens.is_some() {
            available_fields.push("cache_creation".to_owned());
        }
        if self.cache_read_input_tokens.is_some() {
            available_fields.push("cache_read".to_owned());
        }
        proof {
            assert(available_fields.deep_view() =~= spec_available_fields(self));
        }

        let input = unwrap_or_zero(&self.input_tokens);
        let output = unwrap_or_zero(&self.output_tokens);
        let total = unwrap_or_zero(&self.total_tokens);

        let cache_read = match &self.cache_read_input_tokens {
            Some(n) => *n,
            None => match &self.prompt_tokens_details {
                Some(d) => unwrap_or_zero(&d.cached_tokens),
                None => 0,
            },
        };
        let cache_creation = unwrap_or_zero(&self.cache_creation_input_tokens);

        let component_sum = sat_add_u32(
            sat_add_u32(sat_add_u32(input, output), cache_read),
            cache_creation,
        );
        let (total_value, source): (u32, &str) = if total > 0 {
            (total, "total_tokens_direct")
        } else if component_sum > 0 {
            (component_sum, "total_from_components")
        } else {
            (0, "")
        };

        NormalizedUsage {
            input_tokens: input,
            output_tokens: output,
            total_tokens: total_value,
            cache_creation_input_tokens: cache_creation,
            cache_read_input_tokens: cache_read,
            calculation_source: source.to_owned(),
            raw_data_available: available_fields,
        }
    }
}

/// The count a field holds, or zero when it is absent.
fn unwrap_or_zero(v: &Option<u32>) -> (r: u32)
    ensures
        r == v.unwrap_or(0),
{
    match v {
        Some(n) => *n,
        None => 0,
    }
}

impl NormalizedUsage {
    /// What counts against a context window: all four components, since
    /// this turn's output becomes the next turn's input.
    pub fn context_tokens(&self) -> (r: u32)
        ensures
            r == spec_sat_add_u32(
                spec_sat_add_u32(
                    spec_sat_add_u32(self.input_tokens as int, self.cache_creation_input_tokens as int),
                    self.cache_read_input_tokens as int,
                ),
                self.output_tokens as int,
            ),
    {
        sat_add_u32(
            sat_add_u32(
                sat_add_u32(self.input_tokens, self.cache_creation_input_tokens),
                self.cache_read_input_tokens,
            ),
            self.output_tokens,
        )
    }

    /// The count used for cost calculation: the known total when positive,
    /// else the sum of the components.
    pub fn total_for_cost(&self) -> (r: u32)
        ensures
            self.total_tokens > 0 ==> r == self.total_tokens,
            self.total_tokens == 0 ==> r == spec_sat_add_u32(
                spec_sat_add_u32(
                    spec_sat_add_u32(self.input_tokens as int, self.output_tokens as int),
                    self.cache_creation_input_tokens as int,
                ),
                self.cache_read_input_tokens as int,
            ),
    {
        if self.total_tokens > 0 {
            self.total_tokens
        } else {
            sat_add_u32(
                sat_add_u32(
                    sat_add_u32(self.input_tokens, self.output_tokens),
                    self.cache_creation_input_tokens,
                ),
                self.cache_read_input_tokens,
            )
        }
    }

    /// The most appropriate count for display: context tokens when any,
    /// else the known total, else the larger of input and output.
    pub fn display_tokens(&self) -> (r: u32)
        ensures
            ({
                let context = spec_sat_add_u32(
                    spec_sat_add_u32(
                        spec_sat_add_u32(
                            self.input_tokens as int,
                            self.cache_creation_input_tokens as int,
                        ),
                        self.cache_read_input_tokens as int,
                    ),
                    self.output_tokens as int,
                );
                if context > 0 {
                    r == context
                } else if self.total_tokens > 0 {
                    r == self.total_tokens
                } else {
                    r == if self.input_tokens >= self.output_tokens {
                        self.input_tokens
                    } else {
                        self.output_tokens
                    }
                }
            }),
    {
        let context = self.context_tokens();
        if context > 0 {
            return context;
        }
        if self.total_tokens > 0 {
            return self.total_tokens;
        }
        if self.input_tokens >= self.output_tokens {
            self.input_tokens
        } else {
            self.output_tokens
        }
    }
}

} // verus!
