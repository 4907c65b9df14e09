//! The `${NAME}` variable-substitution engine.
//!
//! A template is scanned once, left to right.  A placeholder is `${`, an
//! identifier (letter or underscore first, then letters, digits or
//! underscores), and `}`.  Each placeholder is replaced by the variable's
//! value: manifest-scoped variables first, then the process-environment
//! snapshot.  One unresolvable name fails the whole substitution, naming
//! that variable; no partially substituted text ever comes out.  Values are
//! spliced verbatim: they are not scanned again.

use vstd::prelude::*;

verus! {

broadcast use vstd::std_specs::vec::group_vec_axioms, vstd::seq::group_seq_axioms;

pub open spec fn is_ident_start(c: char) -> bool {
    ('A' <= c && c <= 'Z') || ('a' <= c && c <= 'z') || c == '_'
}

pub open spec fn is_ident_cont(c: char) -> bool {
    is_ident_start(c) || ('0' <= c && c <= '9')
}

/// How many identifier characters stand at the front of `s`.
pub open spec fn ident_run(s: Seq<char>) -> int
    decreases s.len(),
{
    if s.len() == 0 || !is_ident_cont(s[0]) {
        0
    } else {
        1 + ident_run(s.drop_first())
    }
}

/// A well-formed placeholder `${NAME}` stands at the front of `s`.
pub open spec fn placeholder_at(s: Seq<char>) -> bool {
    &&& s.len() >= 4
    &&& s[0] == '$'
    &&& s[1] == '{'
    &&& is_ident_start(s[2])
    &&& 2 + ident_run(s.skip(2)) < s.len()
    &&& s[2 + ident_run(s.skip(2))] == '}'
}

/// The name inside the placeholder at the front of `s`.
pub open spec fn placeholder_name(s: Seq<char>) -> Seq<char> {
    s.subrange(2, 2 + ident_run(s.skip(2)))
}

/// First-match lookup in an association list.
pub open spec fn assoc_of(m: Seq<(Seq<char>, Seq<char>)>, k: Seq<char>) -> Option<Seq<char>>
    decreases m,
{
    if m.len() == 0 {
        None
    } else if m[0].0 == k {
        Some(m[0].1)
    } else {
        assoc_of(m.drop_first(), k)
    }
}

/// A variable's value: the manifest map first, the environment second.
pub open spec fn resolve(
    vars: Seq<(Seq<char>, Seq<char>)>,
    env: Seq<(Seq<char>, Seq<char>)>,
    name: Seq<char>,
) -> Option<Seq<char>> {
    match assoc_of(vars, name) {
        Some(v) => Some(v),
        None => assoc_of(env, name),
    }
}

/// What substitution does to a template: either the fully substituted text,
/// or the first unresolvable name, with no text at all.
pub ghost enum SubstOutcome {
    Done { text: Seq<char> },
    Missing { name: Seq<char> },
}

pub open spec fn subst_text(
    s: Seq<char>,
    vars: Seq<(Seq<char>, Seq<char>)>,
    env: Seq<(Seq<char>, Seq<char>)>,
) -> SubstOutcome
    decreases s.len(),
{
    if s.len() == 0 {
        SubstOutcome::Done { text: Seq::empty() }
    } else if placeholder_at(s) {
        proof {
            lemma_ident_run_bounds(s.skip(2));
        }
        let name = placeholder_name(s);
        match resolve(vars, env, name) {
            Some(val) => match subst_text(s.skip(3 + ident_run(s.skip(2))), vars, env) {
                SubstOutcome::Done { text } => SubstOutcome::Done { text: val + text },
                SubstOutcome::Missing { name: m } => SubstOutcome::Missing { name: m },
            },
            None => SubstOutcome::Missing { name },
        }
    } else {
        match subst_text(s.drop_first(), vars, env) {
            SubstOutcome::Done { text } => SubstOutcome::Done { text: seq![s[0]] + text },
            SubstOutcome::Missing { name: m } => SubstOutcome::Missing { name: m },
        }
    }
}

/// The view of an association list held as `String` pairs.
pub open spec fn pairs_view(v: Seq<(String, String)>) -> Seq<(Seq<char>, Seq<char>)> {
    Seq::new(v.len(), |i: int| (v[i].0@, v[i].1@))
}

/// Substitution failed: `missing` is the first name with no value anywhere.
#[derive(Debug)]
pub struct SubstError {
    pub missing: String,
}

/// Resolves `${NAME}` placeholders against manifest variables and a
/// process-environment snapshot.
pub struct TemplateProcessor {
    variables: Vec<(String, String)>,
    environment: Vec<(String, String)>,
}

impl TemplateProcessor {
    pub closed spec fn vars_view(&self) -> Seq<(Seq<char>, Seq<char>)> {
        pairs_view(self.variables@)
    }

    pub closed spec fn env_view(&self) -> Seq<(Seq<char>, Seq<char>)> {
        pairs_view(self.environment@)
    }

    /// A processor with manifest variables only and nothing from the
    /// environment.
    pub fn new(variables: Vec<(String, String)>) -> (r: Self)
        ensures
            r.vars_view() == pairs_view(variables@),
            r.env_view() == Seq::<(Seq<char>, Seq<char>)>::empty(),
    {
        let environment: Vec<(String, String)> = Vec::new();
        proof {
            assert(pairs_view(environment@) =~= Seq::<(Seq<char>, Seq<char>)>::empty());
        }
        TemplateProcessor { variables, environment }
    }

    /// A processor with manifest variables and an environment snapshot; the
    /// manifest wins when both hold a name.
    pub fn with_env(variables: Vec<(String, String)>, environment: Vec<(String, String)>) -> (r:
        Self)
        ensures
            r.vars_view() == pairs_view(variables@),
            r.env_view() == pairs_view(environment@),
    {
        TemplateProcessor { variables, environment }
    }

    /// Substitutes every `${NAME}` placeholder in `template`, or fails with
    /// the first name that neither the manifest nor the environment holds.
    pub fn substitute(&self, template: &str) -> (r: Result<String, SubstError>)
        ensures
            match r {
                Ok(out) => subst_text(template@, self.vars_view(), self.env_view())
                    == (SubstOutcome::Done { text: out@ }),
                Err(e) => subst_text(template@, self.vars_view(), self.env_view())
                    == (SubstOutcome::Missing { name: e.missing@ }),
            },
    {
        let cs = crate::text::str_chars(template);
        let ghost gvars = self.vars_view();
        let ghost genv = self.env_view();
        let mut out: Vec<char> = Vec::new();
        let mut i: usize = 0;
        proof {
            assert(cs@.skip(0) =~= cs@);
        }
        while i < cs.len()
            invariant
                0 <= i <= cs@.len(),
                cs@ == template@,
                gvars == self.vars_view(),
                genv == self.env_view(),
                match subst_text(cs@.skip(i as int), gvars, genv) {
                    SubstOutcome::Done { text } => subst_text(cs@, gvars, genv)
                        == (SubstOutcome::Done { text: out@ + text }),
                    SubstOutcome::Missing { name } => subst_text(cs@, gvars, genv)
                        == (SubstOutcome::Missing { name }),
                },
            decreases cs@.len() - i,
        {
            let ghost rest = cs@.skip(i as int);
            if let Some(name_len) = self.placeholder_len(&cs, i) {
                let name = self.collect_name(&cs, i + 2, name_len);
                proof {
                    assert(name@ =~= placeholder_name(rest));
                }
                match self.resolve_name(&name) {
                    Some(value) => {
                        let ghost out0 = out@;
                        crate::text::push_chars(&mut out, value.as_str());
                        proof {
                            assert(rest.skip(3 + ident_run(rest.skip(2))) =~= cs@.skip(
                                i + 3 + name_len,
                            ));
                            match subst_text(cs@.skip(i + 3 + name_len as int), gvars, genv) {
                                SubstOutcome::Done { text } => {
                                    assert(subst_text(rest, gvars, genv) == (SubstOutcome::Done {
                                        text: value@ + text,
                                    }));
                                    assert(out0 + (value@ + text) =~= (out0 + value@) + text);
                                },
                                SubstOutcome::Missing { name: m } => {},
                            }
                        }
                        i = i + 3 + name_len;
                    },
                    None => {
                        proof {
                            assert(subst_text(rest, gvars, genv) == (SubstOutcome::Missing {
                                name: name@,
                            }));
                        }
                        return Err(SubstError { missing: name });
                    },
                }
            } else {
                let ghost out0 = out@;
                out.push(cs[i]);
                proof {
                    assert(rest.drop_first() =~= cs@.skip(i + 1));
                    match subst_text(cs@.skip(i + 1), gvars, genv) {
                        SubstOutcome::Done { text } => {
                            assert(subst_text(rest, gvars, genv) == (SubstOutcome::Done {
                                text: seq![rest[0]] + text,
                            }));
                            assert(out0 + (seq![rest[0]] + text) =~= (out0 + seq![rest[0]]) + text);
                            assert(out@ =~= out0 + seq![rest[0]]);
                        },
                        SubstOutcome::Missing { name: m } => {},
                    }
                }
                i = i + 1;
            }
        }
        proof {
            assert(cs@.skip(cs@.len() as int) =~= Seq::<char>::empty());
            assert(out@ + Seq::<char>::empty() =~= out@);
        }
        Ok(crate::text::string_of_chars(&out))
    }

    /// Substitutes into every value of an association list, keeping keys and
    /// order; fails on the first value with an unresolvable name.
    pub fn substitute_map(&self, map: &Vec<(String, String)>) -> (r: Result<
        Vec<(String, String)>,
        SubstError,
    >)
        ensures
            match r {
                Ok(out) => {
                    &&& out@.len() == map@.len()
                    &&& forall|j: int|
                        0 <= j < map@.len() ==> (#[trigger] out@[j]).0@ == map@[j].0@ && subst_text(
                            map@[j].1@,
                            self.vars_view(),
                            self.env_view(),
                        ) == (SubstOutcome::Done { text: out@[j].1@ })
                },
                Err(e) => exists|j: int|
                    0 <= j < map@.len() && subst_text(
                        (#[trigger] map@[j]).1@,
                        self.vars_view(),
                        self.env_view(),
                    ) == (SubstOutcome::Missing { name: e.missing@ }),
            },
    {
        let mut out: Vec<(String, String)> = Vec::new();
        let mut i: usize = 0;
        while i < map.len()
            invariant
                0 <= i <= map@.len(),
                out@.len() == i,
                forall|j: int|
                    0 <= j < i ==> (#[trigger] out@[j]).0@ == map@[j].0@ && subst_text(
                        map@[j].1@,
                        self.vars_view(),
                        self.env_view(),
                    ) == (SubstOutcome::Done { text: out@[j].1@ }),
            decreases map@.len() - i,
        {
            let key = map[i].0.clone();
            match self.substitute(map[i].1.as_str()) {
                Ok(value) => {
                    out.push((key, value));
                },
                Err(e) => {
                    return Err(e);
                },
            }
            i = i + 1;
        }
        Ok(out)
    }

    /// When a well-formed placeholder stands at position `i`, the length of
    /// its name.
    fn placeholder_len(&self, cs: &Vec<char>, i: usize) -> (r: Option<usize>)
        requires
            i < cs@.len(),
        ensures
            match r {
                Some(n) => {
                    &&& placeholder_at(cs@.skip(i as int))
                    &&& n == ident_run(cs@.skip(i as int).skip(2))
                    &&& i + 3 + n <= cs@.len()
                },
                None => !placeholder_at(cs@.skip(i as int)),
            },
    {
        let ghost rest = cs@.skip(i as int);
        let total = cs.len();
        if cs[i] != '$' {
            return None;
        }
        if i + 1 >= total || cs[i + 1] != '{' {
            proof {
                if i + 1 < rest.len() + i {
                    assert(rest[1] == cs@[i + 1]);
                }
            }
            return None;
        }
        if i + 2 >= total {
            proof {
                assert(rest.len() < 4);
            }
            return None;
        }
        let c2 = cs[i + 2];
        let start_ok = ('A' <= c2 && c2 <= 'Z') || ('a' <= c2 && c2 <= 'z') || c2 == '_';
        if !start_ok {
            proof {
                assert(rest[2] == cs@[i + 2]);
                assert(!is_ident_start(rest[2]));
            }
            return None;
        }
        // Scan the identifier run.
        let mut j: usize = i + 2;
        while j < cs.len() && is_ident_cont_char(cs[j])
            invariant
                i + 2 <= j <= cs@.len(),
                i < cs@.len(),
                rest == cs@.skip(i as int),
                forall|k: int| i + 2 <= k < j ==> is_ident_cont(#[trigger] cs@[k]),
            decreases cs@.len() - j,
        {
            j = j + 1;
        }
        proof {
            assert(j == cs@.len() || !is_ident_cont(cs@[j as int]));
            lemma_ident_run_count(rest.skip(2), j - i - 2);
            assert(ident_run(rest.skip(2)) == j - i - 2) by {
                assert(forall|k: int|
                    0 <= k < j - i - 2 ==> rest.skip(2)[k] == cs@[i + 2 + k] && is_ident_cont(
                        #[trigger] rest.skip(2)[k],
                    ));
                if j < cs@.len() {
                    assert(rest.skip(2)[j - i - 2] == cs@[j as int]);
                }
                lemma_ident_run_count(rest.skip(2), j - i - 2);
            }
        }
        if j == cs.len() {
            return None;
        }
        if cs[j] != '}' {
            proof {
                assert(rest[2 + ident_run(rest.skip(2))] == cs@[j as int]);
            }
            return None;
        }
        proof {
            assert(rest[0] == cs@[i as int]);
            assert(rest[1] == cs@[i + 1]);
            assert(rest[2] == cs@[i + 2]);
            assert(rest[2 + ident_run(rest.skip(2))] == cs@[j as int]);
            assert(placeholder_at(rest));
        }
        Some(j - i - 2)
    }

    /// The name's characters, as a `String`.
    fn collect_name(&self, cs: &Vec<char>, from: usize, len: usize) -> (r: String)
        requires
            from + len <= cs@.len(),
        ensures
            r@ == cs@.subrange(from as int, from + len),
    {
        let mut name: Vec<char> = Vec::new();
        let total = cs.len();
        let mut k: usize = 0;
        while k < len
            invariant
                0 <= k <= len,
                from + len <= cs@.len(),
                cs@.len() == total,
                name@ == cs@.subrange(from as int, from + k),
            decreases len - k,
        {
            name.push(cs[from + k]);
            proof {
                assert(cs@.subrange(from as int, from + k + 1) =~= cs@.subrange(
                    from as int,
                    from + k as int,
                ).push(cs@[from + k]));
            }
            k = k + 1;
        }
        crate::text::string_of_chars(&name)
    }

    /// The value for `name`: manifest variables first, then the environment.
    fn resolve_name(&self, name: &String) -> (r: Option<&String>)
        ensures
            match r {
                Some(v) => resolve(self.vars_view(), self.env_view(), name@) == Some(v@),
                None => resolve(self.vars_view(), self.env_view(), name@) is None,
            },
    {
        match assoc_get(&self.variables, name) {
            Some(v) => Some(v),
            None => assoc_get(&self.environment, name),
        }
    }
}

fn is_ident_cont_char(c: char) -> (r: bool)
    ensures
        r == is_ident_cont(c),
{
    ('A' <= c && c <= 'Z') || ('a' <= c && c <= 'z') || c == '_' || ('0' <= c && c <= '9')
}

/// First match by key in an association list.
fn assoc_get<'a>(list: &'a Vec<(String, String)>, key: &String) -> (r: Option<&'a String>)
    ensures
        match r {
            Some(v) => assoc_of(pairs_view(list@), key@) == Some(v@),
            None => assoc_of(pairs_view(list@), key@) is None,
        },
{
    let ghost glist = pairs_view(list@);
    proof {
        assert(glist.skip(0) =~= glist);
    }
    let mut i: usize = 0;
    while i < list.len()
        invariant
            0 <= i <= list@.len(),
            glist == pairs_view(list@),
            glist.len() == list@.len(),
            assoc_of(glist, key@) == assoc_of(glist.skip(i as int), key@),
        decreases list@.len() - i,
    {
        proof {
            assert(glist.skip(i as int)[0] == glist[i as int]);
            assert(glist.skip(i as int).drop_first() =~= glist.skip(i + 1));
        }
        if list[i].0 == *key {
            return Some(&list[i].1);
        }
        i = i + 1;
    }
    proof {
        assert(glist.skip(i as int) =~= Seq::empty());
    }
    None
}

/// `name` occurs in `s` as a well-formed placeholder `${name}`.
pub open spec fn references(s: Seq<char>, name: Seq<char>) -> bool {
    exists|i: int|
        0 <= i <= s.len() && placeholder_at(#[trigger] s.skip(i)) && placeholder_name(s.skip(i))
            == name
}

/// When substitution fails, the name it reports really stands in the
/// template as a placeholder, and neither variable map resolves it; and the
/// failure carries no output text at all.
pub proof fn lemma_missing_name_is_unresolved(
    s: Seq<char>,
    vars: Seq<(Seq<char>, Seq<char>)>,
    env: Seq<(Seq<char>, Seq<char>)>,
)
    requires
        subst_text(s, vars, env) is Missing,
    ensures
        references(s, subst_text(s, vars, env)->name),
        resolve(vars, env, subst_text(s, vars, env)->name) is None,
    decreases s.len(),
{
    let name = subst_text(s, vars, env)->name;
    if placeholder_at(s) {
        lemma_ident_run_bounds(s.skip(2));
        match resolve(vars, env, placeholder_name(s)) {
            Some(val) => {
                let k = 3 + ident_run(s.skip(2));
                lemma_missing_name_is_unresolved(s.skip(k), vars, env);
                let i0 = choose|i: int|
                    0 <= i <= s.skip(k).len() && placeholder_at(#[trigger] s.skip(k).skip(i))
                        && placeholder_name(s.skip(k).skip(i)) == name;
                assert(s.skip(k).skip(i0) =~= s.skip(k + i0));
                assert(placeholder_at(s.skip(k + i0)) && placeholder_name(s.skip(k + i0)) == name);
            },
            None => {
                assert(s.skip(0) =~= s);
                assert(placeholder_at(s.skip(0)) && placeholder_name(s.skip(0)) == name);
            },
        }
    } else {
        lemma_missing_name_is_unresolved(s.drop_first(), vars, env);
        let i0 = choose|i: int|
            0 <= i <= s.drop_first().len() && placeholder_at(#[trigger] s.drop_first().skip(i))
                && placeholder_name(s.drop_first().skip(i)) == name;
        assert(s.drop_first().skip(i0) =~= s.skip(1 + i0));
        assert(placeholder_at(s.skip(1 + i0)) && placeholder_name(s.skip(1 + i0)) == name);
    }
}

pub proof fn lemma_ident_run_bounds(s: Seq<char>)
    ensures
        0 <= ident_run(s) <= s.len(),
    decreases s.len(),
{
    if s.len() > 0 && is_ident_cont(s[0]) {
        lemma_ident_run_bounds(s.drop_first());
    }
}

proof fn lemma_ident_run_count(s: Seq<char>, n: int)
    requires
        0 <= n <= s.len(),
        forall|k: int| 0 <= k < n ==> is_ident_cont(#[trigger] s[k]),
        n == s.len() || !is_ident_cont(s[n]),
    ensures
        ident_run(s) == n,
    decreases s.len(),
{
    if n == 0 {
    } else {
        assert(is_ident_cont(s[0]));
        assert(forall|k: int| 0 <= k < n - 1 ==> s.drop_first()[k] == s[k + 1]);
        if n < s.len() {
            assert(s.drop_first()[n - 1] == s[n as int]);
        }
        lemma_ident_run_count(s.drop_first(), n - 1);
    }
}

/// A manifest-scoped variable out-ranks a process-environment variable of
/// the same name: resolution takes the manifest's value whenever the
/// manifest holds the name, and falls back to the environment only
/// otherwise.
pub proof fn lemma_manifest_value_wins(
    vars: Seq<(Seq<char>, Seq<char>)>,
    env: Seq<(Seq<char>, Seq<char>)>,
    name: Seq<char>,
)
    ensures
        assoc_of(vars, name) matches Some(v) ==> resolve(vars, env, name) == Some(v),
        assoc_of(vars, name) is None ==> resolve(vars, env, name) == assoc_of(env, name),
{
}

} // verus!
