//! Turning a manifest tool plus call-time arguments into a concrete
//! invocation: an HTTP request plan, or a command-line run.
//!
//! Manifest variables go through the `${NAME}` engine first; call-time
//! arguments then fill `{argName}` placeholders, a non-string argument as
//! its JSON text.  Authentication lands in a header, a query parameter or
//! the basic-credentials slot.  The network call and the process spawn
//! themselves happen outside this crate, against the plans built here.

use vstd::prelude::*;
use crate::json::{JsonValue, JsonData, json_text, field_of, data_of_fields};
use crate::template::{TemplateProcessor, SubstOutcome, subst_text};
use crate::utcp::{HttpTemplate, HttpMethod, AuthConfig, CliTemplate};
use crate::protocol::{ToolCallResult, ContentItem};

verus! {

broadcast use vstd::std_specs::vec::group_vec_axioms, vstd::seq::group_seq_axioms;

/// Building an invocation failed: a `${NAME}` with no value anywhere.
#[derive(Debug)]
pub struct ExecError {
    pub missing: String,
}

// --- `{argName}` substitution --------------------------------------------

/// How an argument reads when spliced into text: a string as itself, any
/// other value as its JSON text.
pub open spec fn arg_text(d: JsonData) -> Seq<char> {
    match d {
        JsonData::Str { text } => text,
        _ => json_text(d),
    }
}

/// Position of the first `}` in `s`, or -1.
pub open spec fn close_idx(s: Seq<char>) -> int
    decreases s.len(),
{
    if s.len() == 0 {
        -1
    } else if s[0] == '}' {
        0
    } else {
        let r = close_idx(s.drop_first());
        if r < 0 {
            -1
        } else {
            1 + r
        }
    }
}

pub proof fn lemma_close_idx_bounds(s: Seq<char>)
    ensures
        -1 <= close_idx(s) < s.len(),
        close_idx(s) >= 0 ==> s[close_idx(s)] == '}',
    decreases s.len(),
{
    if s.len() > 0 && s[0] != '}' {
        lemma_close_idx_bounds(s.drop_first());
    }
}

/// Replaces each `{name}` whose `name` is a call-time argument with that
/// argument's text; everything else, a brace with no close or a name that
/// is no argument included, stands as itself.  Spliced values are not
/// scanned again.
pub open spec fn arg_subst(s: Seq<char>, args: Seq<(Seq<char>, JsonData)>) -> Seq<char>
    decreases s.len(),
{
    if s.len() == 0 {
        Seq::empty()
    } else if s[0] == '{' && close_idx(s.skip(1)) >= 0 && field_of(
        args,
        s.skip(1).take(close_idx(s.skip(1))),
    ) is Some {
        proof {
            lemma_close_idx_bounds(s.skip(1));
        }
        let k = close_idx(s.skip(1));
        arg_text(field_of(args, s.skip(1).take(k))->0) + arg_subst(s.skip(2 + k), args)
    } else {
        seq![s[0]] + arg_subst(s.drop_first(), args)
    }
}

/// First `}` at or after `from`, scanning executable text.
fn find_close(cs: &Vec<char>, from: usize) -> (r: Option<usize>)
    requires
        from <= cs@.len(),
    ensures
        match r {
            Some(k) => {
                &&& from <= k < cs@.len()
                &&& close_idx(cs@.skip(from as int)) == k - from
            },
            None => close_idx(cs@.skip(from as int)) == -1,
        },
{
    let mut j: usize = from;
    while j < cs.len()
        invariant
            from <= j <= cs@.len(),
            forall|t: int| from <= t < j ==> cs@[t] != '}',
            close_idx(cs@.skip(from as int)) == if close_idx(cs@.skip(j as int)) >= 0 {
                close_idx(cs@.skip(j as int)) + (j - from)
            } else {
                -1int
            },
        decreases cs@.len() - j,
    {
        proof {
            assert(cs@.skip(j as int)[0] == cs@[j as int]);
            assert(cs@.skip(j as int).drop_first() =~= cs@.skip(j + 1));
            lemma_close_idx_bounds(cs@.skip(j + 1));
        }
        if cs[j] == '}' {
            return Some(j);
        }
        j = j + 1;
    }
    proof {
        assert(cs@.skip(j as int) =~= Seq::<char>::empty());
    }
    None
}

/// The argument under `name`, by first match.
fn arg_get<'a>(args: &'a Vec<(String, JsonValue)>, name: &String) -> (r: Option<&'a JsonValue>)
    ensures
        match r {
            Some(v) => field_of(data_of_fields(args@), name@) == Some(v@),
            None => field_of(data_of_fields(args@), name@) is None,
        },
{
    let ghost gargs = data_of_fields(args@);
    proof {
        crate::json::lemma_data_of_fields_len(args@);
        assert(gargs.skip(0) =~= gargs);
    }
    let mut i: usize = 0;
    while i < args.len()
        invariant
            0 <= i <= args@.len(),
            gargs == data_of_fields(args@),
            gargs.len() == args@.len(),
            field_of(gargs, name@) == field_of(gargs.skip(i as int), name@),
        decreases args@.len() - i,
    {
        proof {
            crate::json::lemma_data_of_fields_index(args@, i as int);
            assert(gargs.skip(i as int)[0] == gargs[i as int]);
            assert(gargs.skip(i as int).drop_first() =~= gargs.skip(i + 1));
        }
        if args[i].0 == *name {
            return Some(&args[i].1);
        }
        i = i + 1;
    }
    proof {
        assert(gargs.skip(i as int) =~= Seq::empty());
    }
    None
}

/// Appends an argument's text: a string as itself, another value as JSON.
fn push_arg_text(out: &mut Vec<char>, v: &JsonValue)
    ensures
        final(out)@ == old(out)@ + arg_text(v@),
{
    match v {
        JsonValue::Text(s) => {
            crate::text::push_chars(out, s.as_str());
        },
        _ => {
            let text = crate::json::json_to_string(v);
            crate::text::push_chars(out, text.as_str());
        },
    }
}

/// Substitutes call-time arguments into `{argName}` placeholders.
#[verifier::rlimit(30)]
pub fn substitute_args(text: &str, args: &Vec<(String, JsonValue)>) -> (r: String)
    ensures
        r@ == arg_subst(text@, data_of_fields(args@)),
{
    let ghost gargs = data_of_fields(args@);
    let cs = crate::text::str_chars(text);
    let mut out: Vec<char> = Vec::new();
    let mut i: usize = 0;
    proof {
        assert(cs@.skip(0) =~= cs@);
        assert(out@ + arg_subst(cs@, gargs) =~= arg_subst(cs@, gargs));
    }
    while i < cs.len()
        invariant
            0 <= i <= cs@.len(),
            cs@ == text@,
            gargs == data_of_fields(args@),
            arg_subst(cs@, gargs) == out@ + arg_subst(cs@.skip(i as int), gargs),
        decreases cs@.len() - i,
    {
        let ghost rest = cs@.skip(i as int);
        let ghost out0 = out@;
        proof {
            assert(rest[0] == cs@[i as int]);
            assert(rest.drop_first() =~= cs@.skip(i + 1));
        }
        let mut plain: bool = true;
        if cs[i] == '{' {
            if let Some(k) = find_close(&cs, i + 1) {
                proof {
                    assert(rest.skip(1) =~= cs@.skip(i + 1));
                    lemma_close_idx_bounds(rest.skip(1));
                }
                let name = crate::text::string_of_chars(
                    &collect_range(&cs, i + 1, k),
                );
                proof {
                    assert(name@ =~= rest.skip(1).take(close_idx(rest.skip(1))));
                }
                if let Some(v) = arg_get(args, &name) {
                    push_arg_text(&mut out, v);
                    proof {
                        assert(rest.skip(2 + close_idx(rest.skip(1))) =~= cs@.skip(k + 1));
                        assert(arg_subst(rest, gargs) == arg_text(field_of(gargs, name@)->0)
                            + arg_subst(cs@.skip(k + 1), gargs));
                        assert(out0 + (arg_text(field_of(gargs, name@)->0) + arg_subst(
                            cs@.skip(k + 1),
                            gargs,
                        )) =~= out@ + arg_subst(cs@.skip(k + 1), gargs));
                    }
                    i = k + 1;
                    plain = false;
                }
            }
        }
        if plain {
            out.push(cs[i]);
            proof {
                assert(arg_subst(rest, gargs) == seq![rest[0]] + arg_subst(cs@.skip(i + 1), gargs));
                assert(out0 + (seq![rest[0]] + arg_subst(cs@.skip(i + 1), gargs)) =~= out@
                    + arg_subst(cs@.skip(i + 1), gargs));
            }
            i = i + 1;
        }
    }
    proof {
        assert(cs@.skip(cs@.len() as int) =~= Seq::<char>::empty());
        assert(out@ + Seq::<char>::empty() =~= out@);
    }
    crate::text::string_of_chars(&out)
}

/// The characters of `cs` from `from` (inclusive) to `to` (exclusive).
fn collect_range(cs: &Vec<char>, from: usize, to: usize) -> (r: Vec<char>)
    requires
        from <= to <= cs@.len(),
    ensures
        r@ == cs@.subrange(from as int, to as int),
{
    let mut out: Vec<char> = Vec::new();
    let mut k: usize = from;
    while k < to
        invariant
            from <= k <= to <= cs@.len(),
            out@ == cs@.subrange(from as int, k as int),
        decreases to - k,
    {
        out.push(cs[k]);
        proof {
            assert(cs@.subrange(from as int, k + 1) =~= cs@.subrange(from as int, k as int).push(
                cs@[k as int],
            ));
        }
        k = k + 1;
    }
    out
}

// --- the HTTP plan --------------------------------------------------------

/// A concrete HTTP invocation, ready for a transport to carry out: every
/// template resolved, authentication already placed.
pub struct HttpPlan {
    pub method: HttpMethod,
    pub url: String,
    pub headers: Vec<(String, String)>,
    pub query: Vec<(String, String)>,
    pub basic_auth: Option<(String, String)>,
    pub body_json: Option<String>,
}

/// Every `${NAME}` the authentication needs resolves.
pub open spec fn auth_ok(
    auth: Option<AuthConfig>,
    vars: Seq<(Seq<char>, Seq<char>)>,
    env: Seq<(Seq<char>, Seq<char>)>,
) -> bool {
    match auth {
        None => true,
        Some(AuthConfig::ApiKey { api_key, header_name, query_param_name }) => subst_text(
            api_key@,
            vars,
            env,
        ) is Done,
        Some(AuthConfig::Bearer { token }) => subst_text(token@, vars, env) is Done,
        Some(AuthConfig::Basic { username, password }) => subst_text(username@, vars, env) is Done
            && subst_text(password@, vars, env) is Done,
    }
}

/// The header rows the authentication adds, placed before the template's
/// own headers.  An API key goes to its named header; with only a query
/// parameter named it adds no header; with neither named it defaults to
/// `Authorization: ApiKey <key>`.  A bearer token is the standard bearer
/// header.  Basic credentials add no header here: they ride in the plan's
/// own slot for the transport to encode.
pub open spec fn auth_headers(
    auth: Option<AuthConfig>,
    vars: Seq<(Seq<char>, Seq<char>)>,
    env: Seq<(Seq<char>, Seq<char>)>,
) -> Seq<(Seq<char>, Seq<char>)> {
    match auth {
        Some(AuthConfig::ApiKey { api_key, header_name, query_param_name }) => {
            let key = subst_text(api_key@, vars, env)->text;
            match header_name {
                Some(h) => seq![(h@, key)],
                None => match query_param_name {
                    Some(_) => Seq::empty(),
                    None => seq![("Authorization"@, "ApiKey "@ + key)],
                },
            }
        },
        Some(AuthConfig::Bearer { token }) => seq![
            ("Authorization"@, "Bearer "@ + subst_text(token@, vars, env)->text),
        ],
        _ => Seq::empty(),
    }
}

/// The query rows the authentication adds: only an API key with no header
/// name and a query parameter name set.
pub open spec fn auth_query(
    auth: Option<AuthConfig>,
    vars: Seq<(Seq<char>, Seq<char>)>,
    env: Seq<(Seq<char>, Seq<char>)>,
) -> Seq<(Seq<char>, Seq<char>)> {
    match auth {
        Some(AuthConfig::ApiKey { api_key, header_name, query_param_name }) => {
            match header_name {
                Some(_) => Seq::empty(),
                None => match query_param_name {
                    Some(q) => seq![(q@, subst_text(api_key@, vars, env)->text)],
                    None => Seq::empty(),
                },
            }
        },
        _ => Seq::empty(),
    }
}

/// The basic credentials the plan carries, both substituted.
pub open spec fn auth_basic(
    auth: Option<AuthConfig>,
    vars: Seq<(Seq<char>, Seq<char>)>,
    env: Seq<(Seq<char>, Seq<char>)>,
) -> Option<(Seq<char>, Seq<char>)> {
    match auth {
        Some(AuthConfig::Basic { username, password }) => Some(
            (subst_text(username@, vars, env)->text, subst_text(password@, vars, env)->text),
        ),
        _ => None,
    }
}

/// Every `${NAME}` in every header value resolves.
pub open spec fn headers_ok(
    headers: Seq<(String, String)>,
    vars: Seq<(Seq<char>, Seq<char>)>,
    env: Seq<(Seq<char>, Seq<char>)>,
) -> bool {
    forall|i: int|
        0 <= i < headers.len() ==> subst_text((#[trigger] headers[i]).1@, vars, env) is Done
}

/// The template's header rows after substitution, keys kept.
pub open spec fn headers_subst(
    headers: Seq<(String, String)>,
    vars: Seq<(Seq<char>, Seq<char>)>,
    env: Seq<(Seq<char>, Seq<char>)>,
) -> Seq<(Seq<char>, Seq<char>)> {
    Seq::new(headers.len(), |i: int| (headers[i].0@, subst_text(headers[i].1@, vars, env)->text))
}

/// The whole plan succeeds exactly when the URL, the authentication and
/// every header resolve.
pub open spec fn http_plan_ok(
    t: HttpTemplate,
    vars: Seq<(Seq<char>, Seq<char>)>,
    env: Seq<(Seq<char>, Seq<char>)>,
) -> bool {
    &&& subst_text(t.url@, vars, env) is Done
    &&& auth_ok(t.auth, vars, env)
    &&& headers_ok(t.headers@, vars, env)
}

/// The body the plan carries: the named argument's JSON text, when a body
/// field is configured and that argument was passed.
pub open spec fn body_of(
    body_field: Option<String>,
    args: Seq<(Seq<char>, JsonData)>,
) -> Option<Seq<char>> {
    match body_field {
        Some(f) => match field_of(args, f@) {
            Some(v) => Some(json_text(v)),
            None => None,
        },
        None => None,
    }
}

pub open spec fn http_plan_matches(
    t: HttpTemplate,
    vars: Seq<(Seq<char>, Seq<char>)>,
    env: Seq<(Seq<char>, Seq<char>)>,
    args: Seq<(Seq<char>, JsonData)>,
    p: HttpPlan,
) -> bool {
    &&& p.method == t.http_method
    &&& p.url@ == arg_subst(subst_text(t.url@, vars, env)->text, args)
    &&& crate::template::pairs_view(p.headers@) == auth_headers(t.auth, vars, env) + headers_subst(
        t.headers@,
        vars,
        env,
    )
    &&& crate::template::pairs_view(p.query@) == auth_query(t.auth, vars, env)
    &&& match p.basic_auth {
        Some((u, w)) => auth_basic(t.auth, vars, env) == Some((u@, w@)),
        None => auth_basic(t.auth, vars, env) is None,
    }
    &&& match p.body_json {
        Some(b) => body_of(t.body_field, args) == Some(b@),
        None => body_of(t.body_field, args) is None,
    }
}

/// Builds the HTTP invocation for one tool call: manifest variables into
/// the URL, then call-time arguments; authentication; headers; and the
/// body argument's JSON text.  Fails exactly on the first template whose
/// `${NAME}` has no value, naming that variable.
#[verifier::loop_isolation(false)]
#[verifier::rlimit(30)]
pub fn build_http_plan(
    t: &HttpTemplate,
    processor: &TemplateProcessor,
    args: &Vec<(String, JsonValue)>,
) -> (r: Result<HttpPlan, ExecError>)
    ensures
        r is Ok <==> http_plan_ok(*t, processor.vars_view(), processor.env_view()),
        match r {
            Ok(p) => http_plan_matches(
                *t,
                processor.vars_view(),
                processor.env_view(),
                data_of_fields(args@),
                p,
            ),
            Err(e) => !http_plan_ok(*t, processor.vars_view(), processor.env_view()),
        },
{
    let ghost vars = processor.vars_view();
    let ghost env = processor.env_view();
    let ghost gargs = data_of_fields(args@);
    let url1 = match processor.substitute(t.url.as_str()) {
        Ok(u) => u,
        Err(e) => {
            return Err(ExecError { missing: e.missing });
        },
    };
    let url = substitute_args(url1.as_str(), args);
    let mut headers: Vec<(String, String)> = Vec::new();
    let mut query: Vec<(String, String)> = Vec::new();
    let mut basic_auth: Option<(String, String)> = None;
    match &t.auth {
        None => {},
        Some(AuthConfig::ApiKey { api_key, header_name, query_param_name }) => {
            let key = match processor.substitute(api_key.as_str()) {
                Ok(k) => k,
                Err(e) => {
                    return Err(ExecError { missing: e.missing });
                },
            };
            match header_name {
                Some(h) => {
                    headers.push((h.clone(), key));
                },
                None => match query_param_name {
                    Some(q) => {
                        query.push((q.clone(), key));
                    },
                    None => {
                        let mut value: Vec<char> = Vec::new();
                        proof {
                            reveal_strlit("ApiKey ");
                        }
                        crate::text::push_chars(&mut value, "ApiKey ");
                        crate::text::push_chars(&mut value, key.as_str());
                        headers.push(
                            (
                                String::from_str("Authorization"),
                                crate::text::string_of_chars(&value),
                            ),
                        );
                    },
                },
            }
        },
        Some(AuthConfig::Bearer { token }) => {
            let tok = match processor.substitute(token.as_str()) {
                Ok(k) => k,
                Err(e) => {
                    return Err(ExecError { missing: e.missing });
                },
            };
            let mut value: Vec<char> = Vec::new();
            proof {
                reveal_strlit("Bearer ");
            }
            crate::text::push_chars(&mut value, "Bearer ");
            crate::text::push_chars(&mut value, tok.as_str());
            headers.push(
                (String::from_str("Authorization"), crate::text::string_of_chars(&value)),
            );
        },
        Some(AuthConfig::Basic { username, password }) => {
            let user = match processor.substitute(username.as_str()) {
                Ok(k) => k,
                Err(e) => {
                    return Err(ExecError { missing: e.missing });
                },
            };
            let pass = match processor.substitute(password.as_str()) {
                Ok(k) => k,
                Err(e) => {
                    return Err(ExecError { missing: e.missing });
                },
            };
            basic_auth = Some((user, pass));
        },
    }
    proof {
        assert(crate::template::pairs_view(headers@) =~= auth_headers(t.auth, vars, env));
        assert(crate::template::pairs_view(query@) =~= auth_query(t.auth, vars, env));
    }
    let ghost auth_hdrs = crate::template::pairs_view(headers@);
    let substituted = match processor.substitute_map(&t.headers) {
        Ok(h) => h,
        Err(e) => {
            return Err(ExecError { missing: e.missing });
        },
    };
    let mut k: usize = 0;
    while k < substituted.len()
        invariant
            0 <= k <= substituted@.len(),
            vars == processor.vars_view(),
            env == processor.env_view(),
            substituted@.len() == t.headers@.len(),
            forall|j: int|
                0 <= j < t.headers@.len() ==> (#[trigger] substituted@[j]).0@ == t.headers@[j].0@
                    && subst_text(t.headers@[j].1@, vars, env) == (SubstOutcome::Done {
                    text: substituted@[j].1@,
                }),
            crate::template::pairs_view(headers@) =~= auth_hdrs + headers_subst(
                t.headers@,
                vars,
                env,
            ).take(k as int),
        decreases substituted@.len() - k,
    {
        let key = substituted[k].0.clone();
        let value = substituted[k].1.clone();
        let ghost hs = headers_subst(t.headers@, vars, env);
        let ghost before = headers@;
        headers.push((key, value));
        proof {
            assert(hs[k as int] == (key@, value@));
            assert(headers@ == before.push((key, value)));
            let lhs = crate::template::pairs_view(headers@);
            let rhs = auth_hdrs + hs.take(k + 1);
            assert(before.len() == auth_hdrs.len() + k);
            assert forall|j: int| 0 <= j < lhs.len() implies lhs[j] == rhs[j] by {
                if j < auth_hdrs.len() + k {
                    assert(headers@[j] == before[j]);
                    assert(lhs[j] == crate::template::pairs_view(before)[j]);
                    assert(rhs[j] == (auth_hdrs + hs.take(k as int))[j]);
                } else {
                    assert(headers@[j] == (key, value));
                    assert(rhs[j] == hs.take(k + 1)[k as int]);
                }
            }
            assert(lhs =~= rhs);
        }
        k = k + 1;
    }
    proof {
        assert(headers_subst(t.headers@, vars, env).take(t.headers@.len() as int) =~= headers_subst(
            t.headers@,
            vars,
            env,
        ));
        assert forall|i: int| 0 <= i < t.headers@.len() implies subst_text(
            (#[trigger] t.headers@[i]).1@,
            vars,
            env,
        ) is Done by {
            assert(substituted@[i].0@ == t.headers@[i].0@);
        }
        assert(headers_ok(t.headers@, vars, env));
    }
    let body_json: Option<String> = match &t.body_field {
        Some(f) => match arg_get(args, f) {
            Some(v) => Some(crate::json::json_to_string(v)),
            None => None,
        },
        None => None,
    };
    Ok(
        HttpPlan {
            method: clone_method(&t.http_method),
            url,
            headers,
            query,
            basic_auth,
            body_json,
        },
    )
}

fn clone_method(m: &HttpMethod) -> (r: HttpMethod)
    ensures
        r == *m,
{
    match m {
        HttpMethod::Get => HttpMethod::Get,
        HttpMethod::Post => HttpMethod::Post,
        HttpMethod::Put => HttpMethod::Put,
        HttpMethod::Delete => HttpMethod::Delete,
        HttpMethod::Patch => HttpMethod::Patch,
    }
}

/// An API-key authentication with neither a header name nor a query
/// parameter name lands in the default header: `Authorization` carrying
/// `ApiKey ` and then the substituted key, and nothing in the query.
pub proof fn lemma_api_key_default_header(
    key_template: String,
    vars: Seq<(Seq<char>, Seq<char>)>,
    env: Seq<(Seq<char>, Seq<char>)>,
)
    requires
        subst_text(key_template@, vars, env) is Done,
    ensures
        auth_headers(
            Some(
                AuthConfig::ApiKey {
                    api_key: key_template,
                    header_name: None,
                    query_param_name: None,
                },
            ),
            vars,
            env,
        ) == seq![("Authorization"@, "ApiKey "@ + subst_text(key_template@, vars, env)->text)],
        auth_query(
            Some(
                AuthConfig::ApiKey {
                    api_key: key_template,
                    header_name: None,
                    query_param_name: None,
                },
            ),
            vars,
            env,
        ) == Seq::<(Seq<char>, Seq<char>)>::empty(),
{
}


// --- the command-line run -------------------------------------------------

/// The White_Space characters, as Rust documents them for
/// `char::is_whitespace`.
pub open spec fn is_wspace(c: char) -> bool {
    ||| (9 <= c as int <= 13)
    ||| c == ' '
    ||| c as int == 133
    ||| c as int == 160
    ||| c as int == 5760
    ||| (8192 <= c as int <= 8202)
    ||| c as int == 8232
    ||| c as int == 8233
    ||| c as int == 8239
    ||| c as int == 8287
    ||| c as int == 12288
}

/// Relies on `char::is_whitespace`: true exactly on the White_Space
/// characters its documentation lists.
#[verifier::external_body]
fn is_space_char(c: char) -> (r: bool)
    ensures
        r == is_wspace(c),
{
    c.is_whitespace()
}

/// How many non-whitespace characters stand at the front of `s`.
pub open spec fn token_run(s: Seq<char>) -> int
    decreases s.len(),
{
    if s.len() == 0 || is_wspace(s[0]) {
        0
    } else {
        1 + token_run(s.drop_first())
    }
}

pub proof fn lemma_token_run_bounds(s: Seq<char>)
    ensures
        0 <= token_run(s) <= s.len(),
    decreases s.len(),
{
    if s.len() > 0 && !is_wspace(s[0]) {
        lemma_token_run_bounds(s.drop_first());
    }
}

proof fn lemma_token_run_count(s: Seq<char>, n: int)
    requires
        0 <= n <= s.len(),
        forall|k: int| 0 <= k < n ==> !is_wspace(#[trigger] s[k]),
        n == s.len() || is_wspace(s[n]),
    ensures
        token_run(s) == n,
    decreases s.len(),
{
    if n > 0 {
        assert(forall|k: int| 0 <= k < n - 1 ==> s.drop_first()[k] == s[k + 1]);
        if n < s.len() {
            assert(s.drop_first()[n - 1] == s[n as int]);
        }
        lemma_token_run_count(s.drop_first(), n - 1);
    }
}

/// The whitespace-separated words of `s`, in order, each nonempty.
pub open spec fn split_ws(s: Seq<char>) -> Seq<Seq<char>>
    decreases s.len(),
{
    if s.len() == 0 {
        Seq::empty()
    } else if is_wspace(s[0]) {
        split_ws(s.drop_first())
    } else {
        proof {
            lemma_token_run_bounds(s);
            lemma_token_run_bounds(s.drop_first());
            assert(token_run(s) >= 1);
        }
        seq![s.take(token_run(s))] + split_ws(s.skip(token_run(s)))
    }
}

/// The views of a list of strings.
pub open spec fn strs_view(v: Seq<String>) -> Seq<Seq<char>> {
    Seq::new(v.len(), |i: int| v[i]@)
}

/// Splits text on whitespace runs: the words of a command line.
#[verifier::loop_isolation(false)]
pub fn split_whitespace_chars(text: &str) -> (r: Vec<String>)
    ensures
        strs_view(r@) == split_ws(text@),
{
    let cs = crate::text::str_chars(text);
    let mut out: Vec<String> = Vec::new();
    let mut i: usize = 0;
    proof {
        assert(cs@.skip(0) =~= cs@);
        assert(strs_view(out@) + split_ws(cs@) =~= split_ws(cs@));
    }
    while i < cs.len()
        invariant
            0 <= i <= cs@.len(),
            split_ws(cs@) == strs_view(out@) + split_ws(cs@.skip(i as int)),
        decreases cs@.len() - i,
    {
        let ghost rest = cs@.skip(i as int);
        proof {
            assert(rest[0] == cs@[i as int]);
            assert(rest.drop_first() =~= cs@.skip(i + 1));
        }
        if is_space_char(cs[i]) {
            i = i + 1;
        } else {
            let mut j: usize = i + 1;
            while j < cs.len() && !is_space_char(cs[j])
                invariant
                    i < j <= cs@.len(),
                    !is_wspace(cs@[i as int]),
                    forall|k: int| i <= k < j ==> !is_wspace(#[trigger] cs@[k]),
                decreases cs@.len() - j,
            {
                j = j + 1;
            }
            proof {
                assert(forall|k: int| 0 <= k < j - i ==> rest[k] == cs@[i + k]);
                if j < cs@.len() {
                    assert(rest[j - i] == cs@[j as int]);
                }
                lemma_token_run_count(rest, j - i);
            }
            let token = crate::text::string_of_chars(&collect_range(&cs, i, j));
            let ghost out0 = out@;
            out.push(token);
            proof {
                assert(rest.take(j - i) =~= cs@.subrange(i as int, j as int));
                assert(rest.skip(j - i) =~= cs@.skip(j as int));
                assert(split_ws(rest) == seq![rest.take(j - i)] + split_ws(cs@.skip(j as int)));
                let lhs = strs_view(out@);
                assert forall|q: int| 0 <= q < lhs.len() implies lhs[q] == (strs_view(out0) + seq![
                    cs@.subrange(i as int, j as int),
                ])[q] by {
                    if q < out0.len() {
                        assert(out@[q] == out0[q]);
                    }
                }
                assert(strs_view(out@) =~= strs_view(out0) + seq![
                    cs@.subrange(i as int, j as int),
                ]);
                assert((strs_view(out0) + seq![cs@.subrange(i as int, j as int)]) + split_ws(
                    cs@.skip(j as int),
                ) =~= strs_view(out0) + (seq![cs@.subrange(i as int, j as int)] + split_ws(
                    cs@.skip(j as int),
                )));
            }
            i = j;
        }
    }
    proof {
        assert(cs@.skip(cs@.len() as int) =~= Seq::<char>::empty());
        assert(strs_view(out@) + Seq::<Seq<char>>::empty() =~= strs_view(out@));
    }
    out
}

/// One command of a plan, as the run will meet it: its words when every
/// `${NAME}` resolved, or the first name that had no value.  An unresolved
/// name fails the call only when the run reaches that command; a command
/// whose words are all whitespace is passed over.
pub enum CliStep {
    Command(Vec<String>),
    Unresolved(String),
}

/// A command-line invocation: one step per command template, in order, and
/// whether outputs accumulate across commands.
pub struct CliPlan {
    pub steps: Vec<CliStep>,
    pub accumulate: bool,
}

/// One command template's words after both substitution passes.
pub open spec fn cli_words(
    cmd: Seq<char>,
    vars: Seq<(Seq<char>, Seq<char>)>,
    env: Seq<(Seq<char>, Seq<char>)>,
    args: Seq<(Seq<char>, JsonData)>,
) -> Seq<Seq<char>> {
    split_ws(arg_subst(subst_text(cmd, vars, env)->text, args))
}

/// The step one command template yields: its words when its `${NAME}`s
/// resolve, else the missing name.
pub open spec fn cli_step_matches(
    cmd: Seq<char>,
    vars: Seq<(Seq<char>, Seq<char>)>,
    env: Seq<(Seq<char>, Seq<char>)>,
    args: Seq<(Seq<char>, JsonData)>,
    step: CliStep,
) -> bool {
    match subst_text(cmd, vars, env) {
        SubstOutcome::Done { text: _ } => step matches CliStep::Command(words) && strs_view(words@)
            == cli_words(cmd, vars, env, args),
        SubstOutcome::Missing { name } => step matches CliStep::Unresolved(missing) && missing@
            == name,
    }
}

pub open spec fn cli_plan_matches(
    t: CliTemplate,
    vars: Seq<(Seq<char>, Seq<char>)>,
    env: Seq<(Seq<char>, Seq<char>)>,
    args: Seq<(Seq<char>, JsonData)>,
    p: CliPlan,
) -> bool {
    &&& p.accumulate == t.append_to_final_output
    &&& p.steps@.len() == t.commands@.len()
    &&& forall|i: int|
        0 <= i < t.commands@.len() ==> cli_step_matches(
            (#[trigger] t.commands@[i])@,
            vars,
            env,
            args,
            p.steps@[i],
        )
}

/// Lays out the command-line invocation for one tool call: manifest
/// variables into each command, then call-time arguments, then a whitespace
/// split.  Laying out never fails: a command whose `${NAME}` has no value
/// becomes an unresolved step, and the run fails on it only if it is
/// reached — commands after the first executed one, with accumulation off,
/// never are.
#[verifier::loop_isolation(false)]
pub fn build_cli_plan(
    t: &CliTemplate,
    processor: &TemplateProcessor,
    args: &Vec<(String, JsonValue)>,
) -> (r: CliPlan)
    ensures
        cli_plan_matches(
            *t,
            processor.vars_view(),
            processor.env_view(),
            data_of_fields(args@),
            r,
        ),
{
    let ghost vars = processor.vars_view();
    let ghost env = processor.env_view();
    let ghost gargs = data_of_fields(args@);
    let mut steps: Vec<CliStep> = Vec::new();
    let mut i: usize = 0;
    while i < t.commands.len()
        invariant
            0 <= i <= t.commands@.len(),
            steps@.len() == i,
            forall|j: int|
                0 <= j < i ==> cli_step_matches(
                    (#[trigger] t.commands@[j])@,
                    vars,
                    env,
                    gargs,
                    steps@[j],
                ),
        decreases t.commands@.len() - i,
    {
        match processor.substitute(t.commands[i].as_str()) {
            Ok(substituted) => {
                let with_args = substitute_args(substituted.as_str(), args);
                let words = split_whitespace_chars(with_args.as_str());
                steps.push(CliStep::Command(words));
            },
            Err(e) => {
                steps.push(CliStep::Unresolved(e.missing));
            },
        }
        i = i + 1;
    }
    CliPlan { steps, accumulate: t.append_to_final_output }
}

/// The first step at or after `from` the run cannot pass over: a command
/// with words, or an unresolved name.
pub open spec fn next_actionable(steps: Seq<CliStep>, from: int) -> Option<int>
    decreases steps.len() - from,
{
    if from < 0 || from >= steps.len() {
        None
    } else {
        match steps[from] {
            CliStep::Command(words) => if words@.len() > 0 {
                Some(from)
            } else {
                next_actionable(steps, from + 1)
            },
            CliStep::Unresolved(_) => Some(from),
        }
    }
}

pub proof fn lemma_next_actionable_bounds(steps: Seq<CliStep>, from: int)
    ensures
        match next_actionable(steps, from) {
            Some(f) => from <= f < steps.len(),
            None => true,
        },
    decreases steps.len() - from,
{
    if 0 <= from < steps.len() {
        lemma_next_actionable_bounds(steps, from + 1);
    }
}

/// One tool call's run over its command plan: which step comes next, what
/// has been captured, and the result once the run is over.
pub struct CliRun {
    pub plan: CliPlan,
    pub outputs: Vec<String>,
    pub cursor: usize,
    pub result: Option<ToolCallResult>,
}

/// Where the run stands: the next step it cannot pass over, or none once a
/// result exists or the steps are exhausted.
pub open spec fn run_position(run: CliRun) -> Option<int> {
    if run.result is Some {
        None
    } else {
        next_actionable(run.plan.steps@, run.cursor as int)
    }
}

/// The run is waiting for a command's capture.
pub open spec fn awaiting_command(run: CliRun) -> bool {
    match run_position(run) {
        Some(j) => run.plan.steps@[j] is Command,
        None => false,
    }
}

/// What the run asks of its driver next.
pub enum CliAction {
    /// Execute the command at this step and hand its capture back.
    Execute(usize),
    /// The step's name never resolved: the call fails here, after whatever
    /// ran before it.
    Abort(usize),
    /// Nothing left to do: collect the outcome.
    Finished,
}

/// Standard output, with standard error under a labeled section when it is
/// not empty.
pub open spec fn combined_text(out: Seq<char>, err: Seq<char>) -> Seq<char> {
    if err.len() == 0 {
        out
    } else {
        out + "\nSTDERR:\n"@ + err
    }
}

/// The result of a single command: its output text, the error flag the
/// inverse of its exit success.
pub open spec fn is_single_result(
    res: ToolCallResult,
    out: Seq<char>,
    err: Seq<char>,
    success: bool,
) -> bool {
    &&& res.is_error == !success
    &&& res.content@.len() == 1
    &&& res.content@[0] matches ContentItem::Text(text) && text@ == combined_text(out, err)
}

/// The outputs so far, joined with newlines.
pub open spec fn join_lines(parts: Seq<Seq<char>>) -> Seq<char>
    decreases parts.len(),
{
    if parts.len() == 0 {
        Seq::empty()
    } else if parts.len() == 1 {
        parts[0]
    } else {
        parts[0] + seq!['\n'] + join_lines(parts.drop_first())
    }
}

/// The accumulated result: every captured output joined with newlines, and
/// never an error, whatever each command's exit status was.
pub open spec fn is_joined_result(res: ToolCallResult, parts: Seq<Seq<char>>) -> bool {
    &&& res.is_error == false
    &&& res.content@.len() == 1
    &&& res.content@[0] matches ContentItem::Text(text) && text@ == join_lines(parts)
}

impl CliRun {
    /// A fresh run over `plan`: nothing captured, no result yet.
    pub fn new(plan: CliPlan) -> (r: Self)
        ensures
            r.plan == plan,
            r.outputs@ == Seq::<String>::empty(),
            r.cursor == 0,
            r.result is None,
    {
        CliRun { plan, outputs: Vec::new(), cursor: 0, result: None }
    }

    /// What to do next: run the step's command, abort on its unresolved
    /// name, or finish.
    pub fn next_action(&self) -> (r: CliAction)
        ensures
            match r {
                CliAction::Execute(j) => {
                    &&& run_position(*self) == Some(j as int)
                    &&& self.plan.steps@[j as int] matches CliStep::Command(words) && words@.len()
                        > 0
                },
                CliAction::Abort(j) => {
                    &&& run_position(*self) == Some(j as int)
                    &&& self.plan.steps@[j as int] is Unresolved
                },
                CliAction::Finished => run_position(*self) is None,
            },
    {
        if self.result.is_some() {
            return CliAction::Finished;
        }
        if self.cursor >= self.plan.steps.len() {
            return CliAction::Finished;
        }
        let mut j: usize = self.cursor;
        while j < self.plan.steps.len()
            invariant
                self.cursor <= j <= self.plan.steps@.len(),
                self.result is None,
                next_actionable(self.plan.steps@, self.cursor as int) == next_actionable(
                    self.plan.steps@,
                    j as int,
                ),
            decreases self.plan.steps@.len() - j,
        {
            match &self.plan.steps[j] {
                CliStep::Command(words) => {
                    if words.len() > 0 {
                        return CliAction::Execute(j);
                    }
                },
                CliStep::Unresolved(_) => {
                    return CliAction::Abort(j);
                },
            }
            j = j + 1;
        }
        CliAction::Finished
    }

    /// Takes one executed command's capture.  With accumulation off the run
    /// is over at once: the result reflects only this command's exit
    /// status, and nothing after it — a later command, resolvable or not,
    /// is never reached.  With accumulation on the output is kept, the
    /// command's own success or failure is dropped, and the run moves on.
    pub fn record(&mut self, stdout: String, stderr: &str, success: bool)
        requires
            awaiting_command(*old(self)),
        ensures
            final(self).plan == old(self).plan,
            !old(self).plan.accumulate ==> {
                &&& final(self).result matches Some(res) && is_single_result(
                    res,
                    stdout@,
                    stderr@,
                    success,
                )
                &&& run_position(*final(self)) is None
                &&& final(self).outputs@ == old(self).outputs@
            },
            old(self).plan.accumulate ==> {
                &&& final(self).result is None
                &&& final(self).outputs@ == old(self).outputs@.push(stdout)
                &&& final(self).cursor as int == run_position(*old(self))->0 + 1
            },
    {
        let j = match self.next_action() {
            CliAction::Execute(j) => j,
            _ => {
                proof {
                    assert(false);
                }
                0
            },
        };
        proof {
            lemma_next_actionable_bounds(self.plan.steps@, self.cursor as int);
        }
        let total = self.plan.steps.len();
        if self.plan.accumulate {
            self.outputs.push(stdout);
            self.cursor = j + 1;
        } else {
            let combined: String = if stderr.unicode_len() == 0 {
                stdout
            } else {
                let mut text: Vec<char> = Vec::new();
                crate::text::push_chars(&mut text, stdout.as_str());
                proof {
                    reveal_strlit("\nSTDERR:\n");
                }
                crate::text::push_chars(&mut text, "\nSTDERR:\n");
                crate::text::push_chars(&mut text, stderr);
                crate::text::string_of_chars(&text)
            };
            let mut content: Vec<ContentItem> = Vec::new();
            content.push(ContentItem::Text(combined));
            self.result = Some(ToolCallResult { content, is_error: !success });
        }
    }

    /// The run's outcome, once no command is waiting: the single command's
    /// result, every accumulated output joined as one successful text, or —
    /// when the run stopped on an unresolved step — that step's missing
    /// name.
    pub fn outcome(self) -> (r: Result<ToolCallResult, ExecError>)
        requires
            !awaiting_command(self),
        ensures
            match run_position(self) {
                Some(j) => r matches Err(e) && self.plan.steps@[j] matches CliStep::Unresolved(
                    missing,
                ) && e.missing@ == missing@,
                None => r matches Ok(res) && match self.result {
                    Some(prior) => res == prior,
                    None => is_joined_result(res, strs_view(self.outputs@)),
                },
            },
    {
        match self.next_action() {
            CliAction::Execute(_) => {
                proof {
                    assert(false);
                }
                Err(ExecError { missing: String::new() })
            },
            CliAction::Abort(j) => {
                proof {
                    lemma_next_actionable_bounds(self.plan.steps@, self.cursor as int);
                }
                let total = self.plan.steps.len();
                match &self.plan.steps[j] {
                    CliStep::Unresolved(missing) => Err(ExecError { missing: missing.clone() }),
                    CliStep::Command(_) => {
                        proof {
                            assert(false);
                        }
                        Err(ExecError { missing: String::new() })
                    },
                }
            },
            CliAction::Finished => match self.result {
                Some(res) => Ok(res),
                None => {
                    let joined = join_with_newlines(&self.outputs);
                    let mut content: Vec<ContentItem> = Vec::new();
                    content.push(ContentItem::Text(joined));
                    Ok(ToolCallResult { content, is_error: false })
                },
            },
        }
    }
}

proof fn lemma_join_lines_snoc(parts: Seq<Seq<char>>, x: Seq<char>)
    ensures
        parts.len() == 0 ==> join_lines(parts.push(x)) == x,
        parts.len() > 0 ==> join_lines(parts.push(x)) == join_lines(parts) + seq!['\n'] + x,
    decreases parts.len(),
{
    if parts.len() == 0 {
        assert(parts.push(x)[0] == x);
        assert(join_lines(parts.push(x)) == x);
    } else {
        assert(parts.push(x).drop_first() =~= parts.drop_first().push(x));
        lemma_join_lines_snoc(parts.drop_first(), x);
        assert(parts.push(x)[0] == parts[0]);
        if parts.len() == 1 {
            assert(join_lines(parts.push(x)) =~= join_lines(parts) + seq!['\n'] + x);
        } else {
            let a = parts[0] + seq!['\n'];
            let b = join_lines(parts.drop_first());
            let c = seq!['\n'] + x;
            assert(join_lines(parts.push(x)) == a + ((b + seq!['\n']) + x));
            lemma_add_assoc(b, seq!['\n'], x);
            lemma_add_assoc(a, b, c);
            assert(join_lines(parts) + seq!['\n'] + x == ((a + b) + seq!['\n']) + x);
            lemma_add_assoc(a + b, seq!['\n'], x);
        }
    }
}

proof fn lemma_add_assoc(a: Seq<char>, b: Seq<char>, c: Seq<char>)
    ensures
        (a + b) + c == a + (b + c),
{
    assert((a + b) + c =~= a + (b + c));
}

fn join_with_newlines(parts: &Vec<String>) -> (r: String)
    ensures
        r@ == join_lines(strs_view(parts@)),
{
    let ghost gparts = strs_view(parts@);
    let mut text: Vec<char> = Vec::new();
    let mut i: usize = 0;
    while i < parts.len()
        invariant
            0 <= i <= parts@.len(),
            gparts == strs_view(parts@),
            gparts.len() == parts@.len(),
            text@ == join_lines(gparts.take(i as int)),
        decreases parts@.len() - i,
    {
        proof {
            lemma_join_lines_snoc(gparts.take(i as int), gparts[i as int]);
            assert(gparts.take(i + 1) =~= gparts.take(i as int).push(gparts[i as int]));
        }
        if i > 0 {
            text.push('\n');
        }
        crate::text::push_chars(&mut text, parts[i].as_str());
        i = i + 1;
    }
    proof {
        assert(gparts.take(gparts.len() as int) =~= gparts);
    }
    crate::text::string_of_chars(&text)
}

/// Once a run holds a result, no step is ever offered again: with
/// accumulation off, the first executed command is also the last, and an
/// unresolved name in a later command can no longer fail the call.
pub proof fn lemma_no_command_after_result(run: CliRun)
    requires
        run.result is Some,
    ensures
        run_position(run) is None,
        !awaiting_command(run),
{
}

} // verus!
