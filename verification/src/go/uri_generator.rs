//! Target URIs from a URI template: each token of name characters is
//! replaced by the literal a symbolic analysis found for it, directly or
//! through the environment key a configuration selector stands for.
use vstd::prelude::*;

use crate::model::Expr;
use crate::sorting::{sort_dedup, sort_dedup_spec, texts};
use crate::text::{
    after_last, after_last_exec, contains_char, contains_char_exec, is_ascii_alnum, is_ascii_alnum_exec, is_ascii_upper,
    is_ascii_upper_exec, split_once, split_once_exec, string_of, text_of, upper_char, upper_char_exec,
};

verus! {

/// What a symbolic analysis of a function found: the value it returns and
/// the final binding of each name, with its type.
pub struct AnalysisResult {
    pub return_value: Expr,
    pub final_env: Vec<(String, (Option<String>, Expr))>,
}

/// The final binding of `key` (the last entry that binds it).
pub open spec fn env_lookup(env: Seq<(String, (Option<String>, Expr))>, key: Seq<char>) -> Option<Expr>
    decreases env.len(),
{
    if env.len() == 0 {
        None
    } else if env.last().0@ == key {
        Some(env.last().1.1)
    } else {
        env_lookup(env.drop_last(), key)
    }
}

/// The first literal among `vals` from `i` on.
pub open spec fn first_literal(vals: Seq<Expr>, i: int) -> Option<Seq<char>>
    decreases vals.len() - i,
{
    if i < 0 || i >= vals.len() {
        None
    } else {
        match vals[i] {
            Expr::Literal(v) => Some(v@),
            _ => first_literal(vals, i + 1),
        }
    }
}

/// The literal a binding holds: a literal itself, or the first literal of a
/// joined value.
pub open spec fn literal_of(e: Expr) -> Option<Seq<char>> {
    match e {
        Expr::Literal(v) => Some(v@),
        Expr::Joined { vals } => first_literal(vals@, 0),
        _ => None,
    }
}

pub open spec fn literal_value(env: Seq<(String, (Option<String>, Expr))>, key: Seq<char>) -> Option<Seq<char>> {
    match env_lookup(env, key) {
        Some(e) => literal_of(e),
        None => None,
    }
}

#[verifier::loop_isolation(false)]
fn literal_value_exec(env: &Vec<(String, (Option<String>, Expr))>, key: &[char]) -> (r: Option<Vec<char>>)
    ensures
        r matches Some(v) ==> literal_value(env@, key@) == Some(v@),
        r is None ==> literal_value(env@, key@) is None,
{
    let mut i: usize = env.len();
    assert(env@.take(i as int) =~= env@);
    while i > 0
        invariant
            i <= env@.len(),
            env_lookup(env@, key@) == env_lookup(env@.take(i as int), key@),
        decreases i,
    {
        assert(env@.take(i as int).drop_last() =~= env@.take(i - 1));
        if crate::text::chars_eq(&text_of(&env[i - 1].0), key) {
            let e = &env[i - 1].1.1;
            assert(env@.take(i as int).last() == env@[i - 1]);
            assert(env_lookup(env@, key@) == Some(*e));
            return match e {
                Expr::Literal(v) => Some(text_of(v)),
                Expr::Joined { vals } => {
                    let mut j: usize = 0;
                    while j < vals.len()
                        invariant
                            j <= vals@.len(),
                            first_literal(vals@, 0) == first_literal(vals@, j as int),
                        decreases vals.len() - j,
                    {
                        if let Expr::Literal(v) = &vals[j] {
                            return Some(text_of(v));
                        }
                        j = j + 1;
                    }
                    None
                },
                _ => None,
            };
        }
        i = i - 1;
    }
    assert(env@.take(0) =~= Seq::<(String, (Option<String>, Expr))>::empty());
    None
}

/// The characters of a name: ASCII letters and digits, `_` and `.`.
pub open spec fn is_name_char(c: char) -> bool {
    is_ascii_alnum(c) || c == '_' || c == '.'
}

/// The environment key of a field name: upper case, with `_` before each
/// upper-case letter but the first character (`CustomerServiceEndpoint`
/// gives `CUSTOMER_SERVICE_ENDPOINT`), for its first `k` characters.
pub open spec fn env_key_upto(field: Seq<char>, k: int) -> Seq<char>
    decreases k,
{
    if k <= 0 || k > field.len() {
        Seq::empty()
    } else {
        let c = field[k - 1];
        env_key_upto(field, k - 1) + (if is_ascii_upper(c) && k - 1 > 0 {
            seq!['_']
        } else {
            Seq::empty()
        }) + seq![upper_char(c)]
    }
}

pub open spec fn has_upper(s: Seq<char>) -> bool {
    exists|i: int| 0 <= i < s.len() && is_ascii_upper(#[trigger] s[i])
}

/// The environment key a configuration selector such as
/// `config.AppConfig.CustomerServiceEndpoint` stands for: that of its last
/// segment, when the token is a selector and that segment has an upper-case
/// letter.
pub open spec fn selector_env_key(token: Seq<char>) -> Option<Seq<char>> {
    let field = after_last(token, '.');
    if !contains_char(token, '.') || !has_upper(field) {
        None
    } else {
        Some(env_key_upto(field, field.len() as int))
    }
}

pub fn selector_env_key_exec(token: &[char]) -> (r: Option<Vec<char>>)
    ensures
        r matches Some(v) ==> selector_env_key(token@) == Some(v@),
        r is None ==> selector_env_key(token@) is None,
{
    let field = after_last_exec(token, '.');
    if !contains_char_exec(token, '.') {
        return None;
    }
    let mut any = false;
    let mut i: usize = 0;
    while i < field.len()
        invariant
            i <= field@.len(),
            any <==> exists|j: int| 0 <= j < i && is_ascii_upper(#[trigger] field@[j]),
        decreases field.len() - i,
    {
        if is_ascii_upper_exec(field[i]) {
            any = true;
        }
        i = i + 1;
    }
    if !any {
        return None;
    }
    let mut key: Vec<char> = Vec::new();
    let mut k: usize = 0;
    while k < field.len()
        invariant
            k <= field@.len(),
            key@ == env_key_upto(field@, k as int),
        decreases field.len() - k,
    {
        let c = field[k];
        if is_ascii_upper_exec(c) && k > 0 {
            key.push('_');
        }
        key.push(upper_char_exec(c));
        proof {
            assert(key@ =~= env_key_upto(field@, k + 1));
        }
        k = k + 1;
    }
    Some(key)
}

/// What a token resolves to: its literal, or the literal of the environment
/// key it stands for.
pub open spec fn resolve_token(token: Seq<char>, env: Seq<(String, (Option<String>, Expr))>) -> Option<Seq<char>> {
    match literal_value(env, token) {
        Some(v) => Some(v),
        None => match selector_env_key(token) {
            Some(k) => literal_value(env, k),
            None => None,
        },
    }
}

/// A finished token: what it resolves to, or itself.
pub open spec fn flushed(token: Seq<char>, env: Seq<(String, (Option<String>, Expr))>) -> Seq<char> {
    if token.len() == 0 {
        Seq::empty()
    } else {
        match resolve_token(token, env) {
            Some(v) => v,
            None => token,
        }
    }
}

/// The template from `i` on with its tokens replaced, `token` being the
/// token read so far.
pub open spec fn substitute_from(
    s: Seq<char>,
    i: int,
    token: Seq<char>,
    env: Seq<(String, (Option<String>, Expr))>,
) -> Seq<char>
    decreases s.len() - i,
{
    if i < 0 || i >= s.len() {
        flushed(token, env)
    } else if is_name_char(s[i]) {
        substitute_from(s, i + 1, token.push(s[i]), env)
    } else {
        flushed(token, env) + seq![s[i]] + substitute_from(s, i + 1, Seq::empty(), env)
    }
}

pub open spec fn substitute_template_tokens(template: Seq<char>, env: Seq<(String, (Option<String>, Expr))>) -> Seq<char> {
    substitute_from(template, 0, Seq::empty(), env)
}

fn flush_token(result: &mut Vec<char>, token: &mut Vec<char>, env: &Vec<(String, (Option<String>, Expr))>)
    ensures
        final(result)@ == old(result)@ + flushed(old(token)@, env@),
        final(token)@.len() == 0,
{
    if token.len() > 0 {
        let v = match literal_value_exec(env, token) {
            Some(v) => v,
            None => match selector_env_key_exec(token) {
                Some(k) => match literal_value_exec(env, &k) {
                    Some(v) => v,
                    None => token.clone(),
                },
                None => token.clone(),
            },
        };
        crate::text::append_chars(result, &v);
    } else {
        assert(old(result)@ + flushed(old(token)@, env@) =~= old(result)@);
    }
    *token = Vec::new();
}

/// The template with each token replaced by what it resolves to.
pub fn substitute_template_tokens_exec(template: &[char], env: &Vec<(String, (Option<String>, Expr))>) -> (r: Vec<char>)
    ensures
        r@ == substitute_template_tokens(template@, env@),
{
    let mut result: Vec<char> = Vec::new();
    let mut token: Vec<char> = Vec::new();
    let mut i: usize = 0;
    while i < template.len()
        invariant
            i <= template@.len(),
            result@ + substitute_from(template@, i as int, token@, env@) == substitute_template_tokens(template@, env@),
        decreases template.len() - i,
    {
        let c = template[i];
        if is_ascii_alnum_exec(c) || c == '_' || c == '.' {
            token.push(c);
        } else {
            let ghost r0 = result@;
            let ghost t0 = token@;
            flush_token(&mut result, &mut token, env);
            result.push(c);
            assert(token@ =~= Seq::<char>::empty());
            assert(result@ + substitute_from(template@, i + 1, token@, env@) =~= r0 + (flushed(t0, env@) + seq![c]
                + substitute_from(template@, i + 1, Seq::empty(), env@)));
        }
        i = i + 1;
    }
    flush_token(&mut result, &mut token, env);
    result
}

/// The URIs a template stands for: the template resolved and, where it has
/// a query, the resolved URI without it; sorted, each once.
pub open spec fn target_uris(template: Seq<char>, env: Seq<(String, (Option<String>, Expr))>) -> Seq<Seq<char>> {
    let resolved = substitute_template_tokens(template, env);
    sort_dedup_spec(
        match split_once(resolved, '?') {
            Some((base, _)) => seq![resolved, base],
            None => seq![resolved],
        },
    )
}

/// The target URIs of a template under a symbolic analysis.
pub fn generate_target_uris(template: &str, analysis: &AnalysisResult) -> (r: Vec<String>)
    ensures
        texts(r@) == target_uris(template@, analysis.final_env@),
{
    let resolved = substitute_template_tokens_exec(&crate::text::chars_of(template), &analysis.final_env);
    let mut uris: Vec<String> = Vec::new();
    uris.push(string_of(&resolved));
    match split_once_exec(&resolved, '?') {
        Some((base, _)) => {
            uris.push(string_of(&base));
            assert(texts(uris@) =~= seq![resolved@, base@]);
        },
        None => {
            assert(texts(uris@) =~= seq![resolved@]);
        },
    }
    sort_dedup(uris)
}

} // verus!
