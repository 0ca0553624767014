//! Expansion of `${VAR}` and `${VAR:-default}` references in configuration text.
//!
//! - `${VAR}` is replaced by the value of `VAR` in the lookup table, and is an
//!   error when `VAR` has no value there.
//! - `${VAR:-default}` is replaced by the value of `VAR` when it has one, and by
//!   `default` otherwise.
//!
//! No whitespace is trimmed, defaults are literal text (no nested expansion),
//! and variable names must match `^[A-Za-z_][A-Za-z0-9_]*$`. All other text is
//! copied through unchanged.
use vstd::prelude::*;
use vstd::utf8::encode_utf8;

use crate::text::{chars_of, decimal, push_char, push_chars, push_decimal, string_of_range};

verus! {

// ------------------------------------------------------------------
// Variable names
// ------------------------------------------------------------------

pub open spec fn alpha_or_underscore(c: char) -> bool {
    ('A' <= c && c <= 'Z') || ('a' <= c && c <= 'z') || c == '_'
}

pub open spec fn alnum_or_underscore(c: char) -> bool {
    alpha_or_underscore(c) || ('0' <= c && c <= '9')
}

/// `name` matches `^[A-Za-z_][A-Za-z0-9_]*$`.
pub open spec fn valid_var_name(name: Seq<char>) -> bool {
    &&& name.len() > 0
    &&& alpha_or_underscore(name[0])
    &&& forall|i: int| 1 <= i < name.len() ==> #[trigger] alnum_or_underscore(name[i])
}

pub fn is_alpha_or_underscore(c: char) -> (r: bool)
    ensures
        r == alpha_or_underscore(c),
{
    (c >= 'A' && c <= 'Z') || (c >= 'a' && c <= 'z') || c == '_'
}

pub fn is_alnum_or_underscore(c: char) -> (r: bool)
    ensures
        r == alnum_or_underscore(c),
{
    is_alpha_or_underscore(c) || (c >= '0' && c <= '9')
}

/// Whether `name` is a valid variable name.
pub fn is_valid_var_name(name: &str) -> (r: bool)
    ensures
        r == valid_var_name(name@),
{
    let chars = chars_of(name);
    if chars.len() == 0 || !is_alpha_or_underscore(chars[0]) {
        return false;
    }
    let mut i: usize = 1;
    while i < chars.len()
        invariant
            1 <= i <= chars@.len(),
            chars@ == name@,
            alpha_or_underscore(chars@[0]),
            forall|j: int| 1 <= j < i ==> #[trigger] alnum_or_underscore(chars@[j]),
        decreases chars.len() - i,
    {
        if !is_alnum_or_underscore(chars[i]) {
            return false;
        }
        i = i + 1;
    }
    true
}

// ------------------------------------------------------------------
// Lookup table
// ------------------------------------------------------------------

/// The lookup table as pairs of character sequences.
pub open spec fn env_view(env: &[(String, String)]) -> Seq<(Seq<char>, Seq<char>)> {
    env@.map_values(|p: (String, String)| (p.0@, p.1@))
}

/// The value of `name` in `env`: the value of its first pair with that name.
pub open spec fn env_lookup(env: Seq<(Seq<char>, Seq<char>)>, name: Seq<char>) -> Option<Seq<char>>
    decreases env.len(),
{
    if env.len() == 0 {
        None
    } else if env[0].0 == name {
        Some(env[0].1)
    } else {
        env_lookup(env.drop_first(), name)
    }
}

proof fn lemma_env_lookup_prefix(env: Seq<(Seq<char>, Seq<char>)>, name: Seq<char>, k: int)
    requires
        0 <= k <= env.len(),
        forall|j: int| 0 <= j < k ==> (#[trigger] env[j]).0 != name,
    ensures
        env_lookup(env, name) == env_lookup(env.skip(k), name),
    decreases k,
{
    if k > 0 {
        assert(env.drop_first().skip(k - 1) =~= env.skip(k));
        lemma_env_lookup_prefix(env.drop_first(), name, k - 1);
    } else {
        assert(env.skip(0) =~= env);
    }
}

/// Looks `name` up in `env`.
pub fn lookup_var(env: &[(String, String)], name: &String) -> (r: Option<String>)
    ensures
        r.deep_view() == env_lookup(env_view(env), name@),
{
    let ghost ev = env_view(env);
    let mut j: usize = 0;
    while j < env.len()
        invariant
            j <= env@.len(),
            ev == env_view(env),
            forall|k: int| 0 <= k < j ==> (#[trigger] ev[k]).0 != name@,
        decreases env.len() - j,
    {
        if env[j].0 == *name {
            proof {
                lemma_env_lookup_prefix(ev, name@, j as int);
            }
            return Some(env[j].1.clone());
        }
        j = j + 1;
    }
    proof {
        lemma_env_lookup_prefix(ev, name@, j as int);
    }
    None
}

// ------------------------------------------------------------------
// The expansion, as a function of the input text
// ------------------------------------------------------------------

/// Why an expansion fails, with character positions and names taken from the input.
pub enum ExpandFailure {
    /// A `${` at this character index has no closing `}`.
    Unterminated(int),
    /// The name between `${` and `}` (or `:-`) is not a valid variable name.
    InvalidName(Seq<char>),
    /// The variable has no value and the reference gives no default.
    Unset(Seq<char>),
}

/// Index of the first `}` in `s` at or after `from`, or `s.len()` if there is none.
pub open spec fn first_close(s: Seq<char>, from: int) -> int
    decreases s.len() - from,
{
    if from >= s.len() {
        s.len() as int
    } else if from >= 0 && s[from] == '}' {
        from
    } else {
        first_close(s, from + 1)
    }
}

/// `s[j..j + 2]` is `:-`.
pub open spec fn sep_at(s: Seq<char>, j: int) -> bool {
    s[j] == ':' && s[j + 1] == '-'
}

/// Index of the first `:-` that lies wholly in `s[from..to]`, or `to` if there is none.
pub open spec fn first_sep(s: Seq<char>, from: int, to: int) -> int
    decreases to - from,
{
    if from + 1 >= to {
        to
    } else if sep_at(s, from) {
        from
    } else {
        first_sep(s, from + 1, to)
    }
}

pub open spec fn prepend(p: Seq<char>, r: Result<Seq<char>, ExpandFailure>) -> Result<Seq<char>, ExpandFailure> {
    match r {
        Ok(t) => Ok(p + t),
        Err(e) => Err(e),
    }
}

/// The expansion of `s[i..]` against `env`.
pub open spec fn expand_from(s: Seq<char>, i: int, env: Seq<(Seq<char>, Seq<char>)>) -> Result<Seq<char>, ExpandFailure>
    decreases s.len() - i,
{
    if i < 0 || i >= s.len() {
        Ok(Seq::empty())
    } else if s[i] == '$' && i + 1 < s.len() && s[i + 1] == '{' {
        let end = first_close(s, i + 2);
        if end >= s.len() {
            Err(ExpandFailure::Unterminated(i))
        } else {
            let k = first_sep(s, i + 2, end);
            let name = s.subrange(i + 2, k);
            if !valid_var_name(name) {
                Err(ExpandFailure::InvalidName(name))
            } else {
                proof {
                    lemma_first_close_bounds(s, i + 2);
                }
                match env_lookup(env, name) {
                    Some(v) => prepend(v, expand_from(s, end + 1, env)),
                    None => if k < end {
                        prepend(s.subrange(k + 2, end), expand_from(s, end + 1, env))
                    } else {
                        Err(ExpandFailure::Unset(name))
                    },
                }
            }
        }
    } else {
        prepend(seq![s[i]], expand_from(s, i + 1, env))
    }
}

/// The expansion of the whole text `s` against `env`.
pub open spec fn expand_spec(s: Seq<char>, env: Seq<(Seq<char>, Seq<char>)>) -> Result<Seq<char>, ExpandFailure> {
    expand_from(s, 0, env)
}

pub proof fn lemma_first_close_bounds(s: Seq<char>, from: int)
    requires
        0 <= from,
    ensures
        from <= first_close(s, from) || from > s.len(),
        first_close(s, from) <= s.len(),
    decreases s.len() - from,
{
    if from < s.len() && s[from] != '}' {
        lemma_first_close_bounds(s, from + 1);
    }
}

/// `r` is the first `}` at or after `from` (or `s.len()` when none).
proof fn lemma_first_close_is(s: Seq<char>, from: int, r: int)
    requires
        0 <= from <= r <= s.len(),
        forall|j: int| from <= j < r ==> s[j] != '}',
        r == s.len() || s[r] == '}',
    ensures
        first_close(s, from) == r,
    decreases r - from,
{
    if from < r {
        lemma_first_close_is(s, from + 1, r);
    }
}

/// `k` is the first `:-` wholly inside `s[from..to]` (or `to` when none).
proof fn lemma_first_sep_is(s: Seq<char>, from: int, to: int, k: int)
    requires
        0 <= from,
        to <= s.len(),
        from <= k,
        forall|j: int| from <= j < k && j + 1 < to ==> !#[trigger] sep_at(s, j),
        (k + 1 < to && sep_at(s, k)) || (k == to && (to <= from + 1 || k + 1 >= to)),
    ensures
        first_sep(s, from, to) == k,
    decreases k - from,
{
    if from < k && from + 1 < to {
        lemma_first_sep_is(s, from + 1, to, k);
    }
}

// ------------------------------------------------------------------
// Errors
// ------------------------------------------------------------------

/// Why `expand_vars` refused its input.
#[derive(Debug)]
pub enum ExpandError {
    /// `${` without a closing `}`; `byte_pos` is the byte offset of the `$`.
    Unterminated { byte_pos: usize, source: String },
    /// The referenced name is not a valid variable name.
    InvalidName { name: String, source: String },
    /// The variable is not set and the reference gives no default.
    Unset { name: String, source: String },
}

impl ExpandError {
    /// This error is the exec form of `f` for input `s` and source label `label`.
    pub open spec fn describes(&self, f: ExpandFailure, s: Seq<char>, label: Seq<char>) -> bool {
        match (*self, f) {
            (ExpandError::Unterminated { byte_pos, source }, ExpandFailure::Unterminated(i)) =>
                byte_pos == encode_utf8(s.subrange(0, i)).len() as usize && source@ == label,
            (ExpandError::InvalidName { name, source }, ExpandFailure::InvalidName(n)) =>
                name@ == n && source@ == label,
            (ExpandError::Unset { name, source }, ExpandFailure::Unset(n)) =>
                name@ == n && source@ == label,
            _ => false,
        }
    }

    pub open spec fn message_spec(&self) -> Seq<char> {
        match *self {
            ExpandError::Unterminated { byte_pos, source } =>
                "unterminated variable expansion starting at byte "@ + decimal(byte_pos as nat) + " in "@ + source@,
            ExpandError::InvalidName { name, source } =>
                "invalid variable name `"@ + name@ + "` in "@ + source@ + " (must match ^[A-Za-z_][A-Za-z0-9_]*$)"@,
            ExpandError::Unset { name, source } =>
                "environment variable `"@ + name@ + "` not set and no default provided in "@ + source@,
        }
    }

    /// The human-readable description of this error.
    pub fn message(&self) -> (r: String)
        ensures
            r@ == self.message_spec(),
    {
        let mut r = String::new();
        match self {
            ExpandError::Unterminated { byte_pos, source } => {
                r.append("unterminated variable expansion starting at byte ");
                push_decimal(&mut r, *byte_pos as u64);
                r.append(" in ");
                r.append(source.as_str());
            },
            ExpandError::InvalidName { name, source } => {
                r.append("invalid variable name `");
                r.append(name.as_str());
                r.append("` in ");
                r.append(source.as_str());
                r.append(" (must match ^[A-Za-z_][A-Za-z0-9_]*$)");
            },
            ExpandError::Unset { name, source } => {
                r.append("environment variable `");
                r.append(name.as_str());
                r.append("` not set and no default provided in ");
                r.append(source.as_str());
            },
        }
        assert(r@ =~= self.message_spec());
        r
    }
}

// ------------------------------------------------------------------
// The expansion
// ------------------------------------------------------------------

/// Expands `${VAR}` and `${VAR:-default}` references in `input`, looking
/// variables up in `lookup` (the first pair with the name gives its value).
/// `source_label` names the input in error messages.
pub fn expand_vars(input: &str, lookup: &[(String, String)], source_label: &str) -> (r: Result<String, ExpandError>)
    ensures
        match r {
            Ok(out) => expand_spec(input@, env_view(lookup)) == Ok::<Seq<char>, ExpandFailure>(out@),
            Err(e) => expand_spec(input@, env_view(lookup)) matches Err(f) && e.describes(f, input@, source_label@),
        },
{
    let s = chars_of(input);
    let n = s.len();
    let ghost env = env_view(lookup);
    let mut out = String::new();
    let mut i: usize = 0;
    assert(out@ + Seq::<char>::empty() =~= Seq::<char>::empty());
    while i < n
        invariant
            n == s@.len(),
            s@ == input@,
            env == env_view(lookup),
            i <= n,
            expand_spec(s@, env) == prepend(out@, expand_from(s@, i as int, env)),
        decreases n - i,
    {
        if s[i] == '$' && i + 1 < n && s[i + 1] == '{' {
            let start: usize = i + 2;
            let mut end: usize = start;
            while end < n && s[end] != '}'
                invariant
                    start <= end <= n,
                    n == s@.len(),
                    forall|j: int| start <= j < end ==> s@[j] != '}',
                decreases n - end,
            {
                end = end + 1;
            }
            proof {
                lemma_first_close_is(s@, start as int, end as int);
            }
            if end >= n {
                let prefix = input.substring_char(0, i);
                let byte_pos = prefix.len();
                assert(prefix@ == s@.subrange(0, i as int));
                return Err(ExpandError::Unterminated { byte_pos, source: String::from_str(source_label) });
            }
            let mut k: usize = start;
            while k + 1 < end && !(s[k] == ':' && s[k + 1] == '-')
                invariant
                    start <= k <= end,
                    end < n,
                    n == s@.len(),
                    forall|j: int| start <= j < k && j + 1 < end ==> !#[trigger] sep_at(s@, j),
                decreases end - k,
            {
                k = k + 1;
            }
            let sep: usize = if k + 1 < end { k } else { end };
            proof {
                lemma_first_sep_is(s@, start as int, end as int, sep as int);
            }
            let name = string_of_range(&s, start, sep);
            if !is_valid_var_name(name.as_str()) {
                return Err(ExpandError::InvalidName { name, source: String::from_str(source_label) });
            }
            let ghost before = out@;
            match lookup_var(lookup, &name) {
                Some(v) => {
                    out.append(v.as_str());
                    assert(before + (v@ + expand_from(s@, end + 1, env)->Ok_0) =~= out@ + expand_from(s@, end + 1, env)->Ok_0);
                },
                None => {
                    if sep < end {
                        push_chars(&mut out, &s, sep + 2, end);
                        assert(before + (s@.subrange(sep + 2, end as int) + expand_from(s@, end + 1, env)->Ok_0) =~= out@ + expand_from(s@, end + 1, env)->Ok_0);
                    } else {
                        return Err(ExpandError::Unset { name, source: String::from_str(source_label) });
                    }
                },
            }
            i = end + 1;
        } else {
            let ghost before = out@;
            push_char(&mut out, s[i]);
            assert(before + (seq![s@[i as int]] + expand_from(s@, i + 1, env)->Ok_0) =~= out@ + expand_from(s@, i + 1, env)->Ok_0);
            i = i + 1;
        }
    }
    assert(out@ + Seq::<char>::empty() =~= out@);
    Ok(out)
}

} // verus!

verus! {

// ------------------------------------------------------------------
// Laws
// ------------------------------------------------------------------

/// `s[j..j + 2]` is `${`.
pub open spec fn opens_ref(s: Seq<char>, j: int) -> bool {
    s[j] == '$' && s[j + 1] == '{'
}

proof fn lemma_plain_suffix(s: Seq<char>, i: int, env: Seq<(Seq<char>, Seq<char>)>)
    requires
        0 <= i <= s.len(),
        forall|j: int| 0 <= j < s.len() - 1 ==> !#[trigger] opens_ref(s, j),
    ensures
        expand_from(s, i, env) == Ok::<Seq<char>, ExpandFailure>(s.skip(i)),
    decreases s.len() - i,
{
    if i < s.len() {
        lemma_plain_suffix(s, i + 1, env);
        if i + 1 < s.len() {
            assert(!opens_ref(s, i));
        }
        assert(seq![s[i]] + s.skip(i + 1) =~= s.skip(i));
    } else {
        assert(s.skip(i) =~= Seq::<char>::empty());
    }
}

/// Text that holds no `${` expands to itself, whatever the lookup table.
pub proof fn law_plain_text_unchanged(s: Seq<char>, env: Seq<(Seq<char>, Seq<char>)>)
    requires
        forall|j: int| 0 <= j < s.len() - 1 ==> !#[trigger] opens_ref(s, j),
    ensures
        expand_spec(s, env) == Ok::<Seq<char>, ExpandFailure>(s),
{
    lemma_plain_suffix(s, 0, env);
    assert(s.skip(0) =~= s);
}

/// `${NAME}` expands to the value of `NAME`, and is refused as unset when
/// `NAME` has no value.
pub proof fn law_reference(name: Seq<char>, env: Seq<(Seq<char>, Seq<char>)>)
    requires
        valid_var_name(name),
    ensures
        expand_spec(seq!['$', '{'] + name + seq!['}'], env) == match env_lookup(env, name) {
            Some(v) => Ok::<Seq<char>, ExpandFailure>(v),
            None => Err(ExpandFailure::Unset(name)),
        },
{
    let s = seq!['$', '{'] + name + seq!['}'];
    let end: int = s.len() - 1;
    assert forall|j: int| 2 <= j < end implies s[j] != '}' by {
        assert(s[j] == name[j - 2]);
        if j > 2 {
            assert(alnum_or_underscore(name[j - 2]));
        }
    }
    lemma_first_close_is(s, 2, end);
    assert forall|j: int| 2 <= j < end && j + 1 < end implies !#[trigger] sep_at(s, j) by {
        assert(s[j] == name[j - 2]);
        if j > 2 {
            assert(alnum_or_underscore(name[j - 2]));
        }
    }
    lemma_first_sep_is(s, 2, end, end);
    assert(s.subrange(2, end) =~= name);
    assert(s[0] == '$' && s[1] == '{' && 1 < s.len());
    assert(first_close(s, 2) == end && end < s.len());
    assert(first_sep(s, 2, end) == end);
    assert(expand_from(s, end + 1, env) == Ok::<Seq<char>, ExpandFailure>(Seq::empty()));
    if let Some(v) = env_lookup(env, name) {
        assert(v + Seq::<char>::empty() =~= v);
    }
}

/// `${NAME:-DEFAULT}` expands to the value of `NAME` when it has one, and to
/// `DEFAULT`, taken literally, when it has none.
pub proof fn law_reference_with_default(name: Seq<char>, default: Seq<char>, env: Seq<(Seq<char>, Seq<char>)>)
    requires
        valid_var_name(name),
        forall|j: int| 0 <= j < default.len() ==> #[trigger] default[j] != '}',
    ensures
        expand_spec(seq!['$', '{'] + name + seq![':', '-'] + default + seq!['}'], env) == Ok::<Seq<char>, ExpandFailure>(
            match env_lookup(env, name) {
                Some(v) => v,
                None => default,
            },
        ),
{
    let s = seq!['$', '{'] + name + seq![':', '-'] + default + seq!['}'];
    let end: int = s.len() - 1;
    let k: int = 2 + name.len() as int;
    assert forall|j: int| 2 <= j < end implies s[j] != '}' by {
        if j < k {
            assert(s[j] == name[j - 2]);
            if j > 2 {
                assert(alnum_or_underscore(name[j - 2]));
            }
        } else if j >= k + 2 {
            assert(s[j] == default[j - k - 2]);
        }
    }
    lemma_first_close_is(s, 2, end);
    assert forall|j: int| 2 <= j < k && j + 1 < end implies !#[trigger] sep_at(s, j) by {
        assert(s[j] == name[j - 2]);
        if j > 2 {
            assert(alnum_or_underscore(name[j - 2]));
        }
    }
    assert(sep_at(s, k));
    lemma_first_sep_is(s, 2, end, k);
    assert(s.subrange(2, k) =~= name);
    assert(s.subrange(k + 2, end) =~= default);
    assert(default + Seq::<char>::empty() =~= default);
    assert(s[0] == '$' && s[1] == '{' && 1 < s.len());
    assert(first_close(s, 2) == end && end < s.len());
    assert(first_sep(s, 2, end) == k && k < end);
    assert(expand_from(s, end + 1, env) == Ok::<Seq<char>, ExpandFailure>(Seq::empty()));
    if let Some(v) = env_lookup(env, name) {
        assert(v + Seq::<char>::empty() =~= v);
    }
}

} // verus!
