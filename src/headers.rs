use vstd::prelude::*;
use crate::destination::{clone_headers, headers_view, Header};

verus! {

/// The pattern of a header value that names an environment variable:
/// `{{NAME}}`, the name made of capital letters and underscores.
pub const ENV_PLACEHOLDER_PATTERN: &'static str = "^\\{\\{[A-Z_]+}}$";

/// The name of the header that carries a record's idempotent key.
pub const IDEMPOTENT_KEY_HEADER: &'static str = "x-idempotent-key";

/// The characters that `ENV_PLACEHOLDER_PATTERN` allows in a name.
pub open spec fn is_name_char(c: char) -> bool {
    ('A' <= c && c <= 'Z') || c == '_'
}

/// Text matched by `ENV_PLACEHOLDER_PATTERN`: two opening braces, one or
/// more name characters, two closing braces, and nothing else.
pub open spec fn placeholder_shape(s: Seq<char>) -> bool {
    &&& s.len() >= 5
    &&& s[0] == '{' && s[1] == '{'
    &&& s[s.len() - 2] == '}' && s[s.len() - 1] == '}'
    &&& forall|i: int| 2 <= i < s.len() - 2 ==> is_name_char(#[trigger] s[i])
}

/// Relies on `regex::Regex::new` and `Regex::is_match`: for the placeholder
/// pattern the regex compiles, and it matches a text exactly when the text
/// has the placeholder shape (`^` and `$` anchor at the ends of the text).
#[verifier::external_body]
fn regex_is_match(pattern: &str, text: &str) -> (r: Option<bool>)
    ensures
        pattern@ == ENV_PLACEHOLDER_PATTERN@ ==> r == Some(placeholder_shape(text@)),
{
    match regex::Regex::new(pattern) {
        Ok(re) => Some(re.is_match(text)),
        Err(_) => None,
    }
}

/// The value of the first variable of that name in an environment listing.
pub open spec fn env_lookup(env: Seq<(Seq<char>, Seq<char>)>, name: Seq<char>) -> Option<Seq<char>>
    decreases env.len(),
{
    if env.len() == 0 {
        None
    } else if env[0].0 == name {
        Some(env[0].1)
    } else {
        env_lookup(env.skip(1), name)
    }
}

/// A destination header value at dispatch time: a placeholder is replaced by
/// the variable it names, when that is set; any other value stays.
pub open spec fn resolved_value(v: Seq<char>, env: Seq<(Seq<char>, Seq<char>)>) -> Seq<char> {
    if placeholder_shape(v) {
        match env_lookup(env, v.subrange(2, v.len() - 2)) {
            Some(x) => x,
            None => v,
        }
    } else {
        v
    }
}

/// Destination headers with each value resolved.
pub open spec fn resolved_headers(
    hs: Seq<(Seq<char>, Seq<char>)>,
    env: Seq<(Seq<char>, Seq<char>)>,
) -> Seq<(Seq<char>, Seq<char>)> {
    hs.map_values(|h: (Seq<char>, Seq<char>)| (h.0, resolved_value(h.1, env)))
}

/// Whether a value is an environment placeholder.
pub fn is_env_placeholder(value: &str) -> (r: bool)
    ensures
        r == placeholder_shape(value@),
{
    match regex_is_match(ENV_PLACEHOLDER_PATTERN, value) {
        Some(m) => m,
        None => false,
    }
}

/// Looks a variable up in an environment listing.
pub fn lookup_env(env: &Vec<Header>, name: &str) -> (r: Option<String>)
    ensures
        opt_view(r) == env_lookup(headers_view(env@), name@),
{
    let ghost ev = headers_view(env@);
    assert(ev.skip(0) =~= ev);
    let mut i: usize = 0;
    while i < env.len()
        invariant
            ev == headers_view(env@),
            0 <= i <= ev.len(),
            env_lookup(ev, name@) == env_lookup(ev.skip(i as int), name@),
        decreases ev.len() - i,
    {
        proof {
            assert(ev.skip(i as int)[0] == env@[i as int]@);
            assert(ev.skip(i as int).skip(1) =~= ev.skip(i + 1));
        }
        if crate::destination::same_text(env[i].name.as_str(), name) {
            return Some(env[i].value.clone());
        }
        i = i + 1;
    }
    None
}

/// The model of an optional text.
pub open spec fn opt_view(t: Option<String>) -> Option<Seq<char>> {
    match t {
        None => None,
        Some(v) => Some(v@),
    }
}

/// A destination header value resolved against the environment listing.
pub fn resolve_value(value: &String, env: &Vec<Header>) -> (r: String)
    ensures
        r@ == resolved_value(value@, headers_view(env@)),
{
    if is_env_placeholder(value.as_str()) {
        let n = value.as_str().unicode_len();
        let name = value.as_str().substring_char(2, n - 2);
        match lookup_env(env, name) {
            Some(x) => x,
            None => value.clone(),
        }
    } else {
        value.clone()
    }
}

/// The headers of an HTTP delivery, in the order in which they are applied
/// (a later one overrides an earlier one of the same name): the
/// destination's, resolved; then the record's; then the idempotent key.
pub open spec fn composed_headers(
    destination: Seq<(Seq<char>, Seq<char>)>,
    record: Seq<(Seq<char>, Seq<char>)>,
    key_text: Seq<char>,
    env: Seq<(Seq<char>, Seq<char>)>,
) -> Seq<(Seq<char>, Seq<char>)> {
    resolved_headers(destination, env) + record + seq![(IDEMPOTENT_KEY_HEADER@, key_text)]
}

/// The headers of an optional header list, or none.
pub open spec fn or_empty(h: Option<Seq<(Seq<char>, Seq<char>)>>) -> Seq<(Seq<char>, Seq<char>)> {
    match h {
        Some(v) => v,
        None => Seq::empty(),
    }
}

/// Builds the headers of an HTTP delivery.
pub fn compose_headers(
    destination: &Option<Vec<Header>>,
    record: &Option<Vec<Header>>,
    key_text: &String,
    env: &Vec<Header>,
) -> (r: Vec<Header>)
    ensures
        headers_view(r@) == composed_headers(
            or_empty(crate::destination::opt_headers_view(*destination)),
            or_empty(crate::destination::opt_headers_view(*record)),
            key_text@,
            headers_view(env@),
        ),
{
    let ghost ev = headers_view(env@);
    let mut out: Vec<Header> = Vec::new();
    match destination {
        Some(hs) => {
            let ghost hv = headers_view(hs@);
            let mut i: usize = 0;
            while i < hs.len()
                invariant
                    hv == headers_view(hs@),
                    ev == headers_view(env@),
                    0 <= i <= hv.len(),
                    headers_view(out@) == resolved_headers(hv.subrange(0, i as int), ev),
                decreases hv.len() - i,
            {
                let h = Header { name: hs[i].name.clone(), value: resolve_value(&hs[i].value, env) };
                let ghost before = headers_view(out@);
                out.push(h);
                proof {
                    assert(headers_view(out@) =~= before.push(h@));
                    assert(hv[i as int] == hs@[i as int]@);
                    assert(resolved_headers(hv.subrange(0, i + 1), ev) =~= resolved_headers(
                        hv.subrange(0, i as int),
                        ev,
                    ).push(h@));
                }
                i = i + 1;
            }
            assert(hv.subrange(0, hv.len() as int) =~= hv);
        },
        None => {
            assert(headers_view(out@) =~= resolved_headers(Seq::empty(), ev));
        },
    }
    let ghost first = headers_view(out@);
    match record {
        Some(hs) => {
            let mut more = clone_headers(hs);
            let ghost mv = headers_view(more@);
            out.append(&mut more);
            assert(headers_view(out@) =~= first + mv);
        },
        None => {
            assert(headers_view(out@) =~= first + Seq::empty());
        },
    }
    let ghost second = headers_view(out@);
    let key = Header { name: String::from_str(IDEMPOTENT_KEY_HEADER), value: key_text.clone() };
    out.push(key);
    assert(headers_view(out@) =~= second.push(key@));
    out
}

} // verus!
