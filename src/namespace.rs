//! The rules that every primary namespace, secondary namespace and key must meet
//! before a store touches its backing medium.
use vstd::prelude::*;

verus! {

/// The longest namespace or key that a store accepts.
pub open spec fn max_component_len() -> nat {
    120
}

/// The characters a namespace or key may hold: ASCII letters, digits, `_` and `-`.
pub open spec fn is_key_alphabet_char(c: char) -> bool {
    ('a' <= c && c <= 'z') || ('A' <= c && c <= 'Z') || ('0' <= c && c <= '9') || c == '_'
        || c == '-'
}

/// A namespace or key made only of the alphabet and no longer than the limit.
pub open spec fn is_valid_component(s: Seq<char>) -> bool {
    &&& s.len() <= max_component_len()
    &&& forall|i: int| 0 <= i < s.len() ==> is_key_alphabet_char(#[trigger] s[i])
}

/// Which of the rules a triple breaks.
#[derive(Clone, Copy, Debug, PartialEq, Eq, Structural)]
pub enum KeyRule {
    /// A key was given and it is empty.
    EmptyKey,
    /// The secondary namespace is non-empty while the primary is empty.
    MissingPrimary,
    /// A component holds a character outside the alphabet or is too long.
    InvalidComponent,
}

/// The first rule, in the order they are checked, that a triple breaks.
pub open spec fn violated_rule(primary: Seq<char>, secondary: Seq<char>, key: Option<Seq<char>>)
    -> Option<KeyRule> {
    if key is Some && key->0.len() == 0 {
        Some(KeyRule::EmptyKey)
    } else if primary.len() == 0 && secondary.len() != 0 {
        Some(KeyRule::MissingPrimary)
    } else if !is_valid_component(primary) || !is_valid_component(secondary) || (key is Some
        && !is_valid_component(key->0)) {
        Some(KeyRule::InvalidComponent)
    } else {
        None
    }
}

/// The view of an optional key.
pub open spec fn key_view(key: Option<&str>) -> Option<Seq<char>> {
    match key {
        Some(k) => Some(k@),
        None => None,
    }
}

/// The view of an optional owned key.
pub open spec fn owned_key_view(key: Option<String>) -> Option<Seq<char>> {
    match key {
        Some(k) => Some(k@),
        None => None,
    }
}

/// A refused namespace/key triple, with the operation that was asked for.
#[derive(Clone, Debug)]
pub struct InvalidNamespaceOrKey {
    pub operation: String,
    pub primary_namespace: String,
    pub secondary_namespace: String,
    pub key: Option<String>,
    pub rule: KeyRule,
}

/// Relies on lightning's `KVSTORE_NAMESPACE_KEY_ALPHABET`: ASCII letters, digits, `_` and `-`.
#[verifier::external_body]
fn in_key_alphabet(c: char) -> (r: bool)
    ensures
        r == is_key_alphabet_char(c),
{
    lightning::util::persist::KVSTORE_NAMESPACE_KEY_ALPHABET.contains(c)
}

/// Relies on lightning's `KVSTORE_NAMESPACE_KEY_MAX_LEN`, which is 120.
#[verifier::external_body]
fn key_max_len() -> (r: usize)
    ensures
        r == max_component_len(),
{
    lightning::util::persist::KVSTORE_NAMESPACE_KEY_MAX_LEN
}

/// Whether `s` may stand as a namespace or a key.
pub fn is_valid_kvstore_str(s: &str) -> (r: bool)
    ensures
        r == is_valid_component(s@),
{
    let n = s.unicode_len();
    if n > key_max_len() {
        return false;
    }
    let mut i: usize = 0;
    while i < n
        invariant
            n == s@.len(),
            n <= max_component_len(),
            i <= n,
            forall|j: int| 0 <= j < i ==> is_key_alphabet_char(#[trigger] s@[j]),
        decreases n - i,
    {
        if !in_key_alphabet(s.get_char(i)) {
            return false;
        }
        i = i + 1;
    }
    true
}

/// Checks a triple against the rules, in order: a given key is non-empty; the
/// primary namespace is non-empty where the secondary is; every component is
/// valid. The error names the operation and the triple.
pub fn check_namespace_key_validity(
    primary_namespace: &str,
    secondary_namespace: &str,
    key: Option<&str>,
    operation: &str,
) -> (r: Result<(), InvalidNamespaceOrKey>)
    ensures
        r is Ok <==> violated_rule(primary_namespace@, secondary_namespace@, key_view(key)) is None,
        r matches Err(e) ==> {
            &&& Some(e.rule) == violated_rule(
                primary_namespace@,
                secondary_namespace@,
                key_view(key),
            )
            &&& e.operation@ == operation@
            &&& e.primary_namespace@ == primary_namespace@
            &&& e.secondary_namespace@ == secondary_namespace@
            &&& owned_key_view(e.key) == key_view(key)
        },
{
    let rule = match key {
        Some(k) => {
            if k.is_empty() {
                Some(KeyRule::EmptyKey)
            } else if primary_namespace.is_empty() && !secondary_namespace.is_empty() {
                Some(KeyRule::MissingPrimary)
            } else if !is_valid_kvstore_str(primary_namespace) || !is_valid_kvstore_str(
                secondary_namespace,
            ) || !is_valid_kvstore_str(k) {
                Some(KeyRule::InvalidComponent)
            } else {
                None
            }
        },
        None => {
            if primary_namespace.is_empty() && !secondary_namespace.is_empty() {
                Some(KeyRule::MissingPrimary)
            } else if !is_valid_kvstore_str(primary_namespace) || !is_valid_kvstore_str(
                secondary_namespace,
            ) {
                Some(KeyRule::InvalidComponent)
            } else {
                None
            }
        },
    };
    match rule {
        None => Ok(()),
        Some(rule) => {
            let owned_key = match key {
                Some(k) => Some(k.to_owned()),
                None => None,
            };
            Err(
                InvalidNamespaceOrKey {
                    operation: operation.to_owned(),
                    primary_namespace: primary_namespace.to_owned(),
                    secondary_namespace: secondary_namespace.to_owned(),
                    key: owned_key,
                    rule,
                },
            )
        },
    }
}

} // verus!
