//! Settings fixed when a session starts.
use vstd::prelude::*;
use vstd::string::StringExecFns;

verus! {

#[derive(Debug, Clone, Copy, PartialEq, Eq, Structural)]
pub enum PositionEncoding {
    Utf16,
    Utf8,
}

/// Configuration set at initialization that won't change within a single session
#[derive(Debug)]
pub struct ConstConfig {
    pub position_encoding: PositionEncoding,
    pub supports_semantic_tokens_dynamic_registration: bool,
}

/// The name of the UTF-8 position encoding in the protocol.
pub open spec fn utf8_encoding_name() -> Seq<char> {
    "utf-8"@
}

/// UTF-8 when `encodings` offers it, UTF-16 (the protocol's default) otherwise.
pub open spec fn chosen_encoding(encodings: Seq<String>) -> PositionEncoding {
    if exists|i: int| 0 <= i < encodings.len() && #[trigger] encodings[i]@ == utf8_encoding_name() {
        PositionEncoding::Utf8
    } else {
        PositionEncoding::Utf16
    }
}

impl ConstConfig {
    /// UTF-8 when the client offers it, UTF-16 (the protocol's default) otherwise.
    pub fn choose_encoding(encodings: &Vec<String>) -> (r: PositionEncoding)
        ensures
            r == chosen_encoding(encodings@),
    {
        let utf8 = "utf-8".to_owned();
        let mut i: usize = 0;
        while i < encodings.len()
            invariant
                utf8@ == utf8_encoding_name(),
                i <= encodings.len(),
                forall|k: int| 0 <= k < i ==> encodings@[k]@ != utf8_encoding_name(),
            decreases encodings.len() - i,
        {
            if encodings[i] == utf8 {
                return PositionEncoding::Utf8;
            }
            i = i + 1;
        }
        PositionEncoding::Utf16
    }

    /// The configuration for a client offering `position_encodings` and, or not,
    /// dynamic registration of semantic tokens.
    pub fn from_capabilities(
        position_encodings: &Vec<String>,
        supports_semantic_tokens_dynamic_registration: bool,
    ) -> (r: Self)
        ensures
            r.position_encoding == chosen_encoding(position_encodings@),
            r.supports_semantic_tokens_dynamic_registration
                == supports_semantic_tokens_dynamic_registration,
    {
        ConstConfig {
            position_encoding: Self::choose_encoding(position_encodings),
            supports_semantic_tokens_dynamic_registration,
        }
    }
}

#[derive(Debug, Clone, Copy, PartialEq, Eq, Structural)]
pub enum SemanticTokensMode {
    Disable,
    Enable,
}

impl Default for SemanticTokensMode {
    fn default() -> (r: Self)
        ensures
            r == SemanticTokensMode::Enable,
    {
        SemanticTokensMode::Enable
    }
}

/// The settings the server reads from the client's configuration.
pub const CONFIG_ITEMS: [&'static str; 1] = ["semanticTokens"];

/// The configuration sections asked for each setting: first under the server's
/// own prefix, then bare.
pub open spec fn config_sections_of(items: Seq<&'static str>) -> Seq<Seq<char>> {
    Seq::new(
        2 * items.len(),
        |k: int|
            if k % 2 == 0 {
                "csslancer."@ + items[k / 2]@
            } else {
                items[k / 2]@
            },
    )
}

/// The sections to request, two per setting: `csslancer.<item>`, then `<item>`.
pub fn config_sections() -> (r: Vec<String>)
    ensures
        r@.len() == 2 * CONFIG_ITEMS@.len(),
        forall|k: int| 0 <= k < r@.len() ==> #[trigger] r@[k]@ == config_sections_of(CONFIG_ITEMS@)[k],
{
    let mut r: Vec<String> = Vec::new();
    let mut i: usize = 0;
    while i < CONFIG_ITEMS.len()
        invariant
            i <= CONFIG_ITEMS@.len(),
            r@.len() == 2 * i,
            forall|k: int| 0 <= k < r@.len() ==> #[trigger] r@[k]@ == config_sections_of(CONFIG_ITEMS@)[k],
        decreases CONFIG_ITEMS@.len() - i,
    {
        let item = CONFIG_ITEMS[i];
        let mut prefixed = "csslancer.".to_owned();
        prefixed.append(item);
        r.push(prefixed);
        r.push(item.to_owned());
        proof {
            assert(r@[2 * i as int]@ == config_sections_of(CONFIG_ITEMS@)[2 * i as int]);
            assert(r@[2 * i + 1]@ == config_sections_of(CONFIG_ITEMS@)[2 * i + 1]);
        }
        i += 1;
    }
    r
}

/// Which of the two values returned for a setting counts: the one under the
/// server's prefix unless it is null.
pub open spec fn chosen_value(is_null: Seq<bool>, k: int) -> int {
    if !is_null[2 * k] {
        2 * k
    } else {
        2 * k + 1
    }
}

/// Each entry names the setting of its rank and the value that counts for it.
pub open spec fn value_choices_ok(r: Seq<(String, usize)>, is_null: Seq<bool>) -> bool {
    forall|j: int|
        0 <= j < r.len() ==> #[trigger] r[j].0@ == CONFIG_ITEMS@[j]@ && r[j].1 == chosen_value(
            is_null,
            j,
        )
}

/// For each setting that got both of its values (given by whether each value is
/// null), the setting's name and the index of the value that counts.
pub fn config_value_choices(is_null: &[bool]) -> (r: Vec<(String, usize)>)
    ensures
        r@.len() == if CONFIG_ITEMS@.len() < is_null@.len() / 2 {
            CONFIG_ITEMS@.len() as int
        } else {
            (is_null@.len() / 2) as int
        },
        value_choices_ok(r@, is_null@),
{
    let mut res: Vec<(String, usize)> = Vec::new();
    let mut k: usize = 0;
    while k < CONFIG_ITEMS.len() && k < is_null.len() / 2
        invariant
            k <= CONFIG_ITEMS@.len(),
            k <= is_null@.len() / 2,
            res@.len() == k,
            value_choices_ok(res@, is_null@),
        decreases CONFIG_ITEMS@.len() - k,
    {
        let idx = if !is_null[2 * k] {
            2 * k
        } else {
            2 * k + 1
        };
        let name = CONFIG_ITEMS[k].to_owned();
        let ghost before = res@;
        res.push((name, idx));
        proof {
            assert forall|j: int| 0 <= j < res@.len() implies #[trigger] res@[j].0@ == CONFIG_ITEMS@[j]@
                && res@[j].1 == chosen_value(is_null@, j) by {
                if j < k {
                    assert(res@[j] == before[j]);
                }
            }
        }
        k += 1;
    }
    res
}

} // verus!
