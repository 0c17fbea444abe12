//! The variable resolver: substitutes declared variables into a template's
//! title, body and branch pattern.

use vstd::prelude::*;
use crate::assign::Assignment;
use crate::template::{ResolvedMessage, Template};
use crate::text::{chars_of, replace_all, replaced, string_of_chars};

verus! {

/// The placeholder marker `{{name}}` for a variable name.
pub open spec fn placeholder(name: Seq<char>) -> Seq<char> {
    seq!['{', '{'] + name + seq!['}', '}']
}

/// The key-value view of a sequence of assignments.
pub open spec fn pairs_of(a: Seq<Assignment>) -> Seq<(Seq<char>, Seq<char>)> {
    Seq::new(a.len(), |i: int| (a[i].key@, a[i].value@))
}

/// The value of the first assignment whose key is `name`, if any.
pub open spec fn find_value(assigns: Seq<(Seq<char>, Seq<char>)>, name: Seq<char>) -> Option<
    Seq<char>,
>
    decreases assigns.len(),
{
    if assigns.len() == 0 {
        None
    } else if assigns[0].0 == name {
        Some(assigns[0].1)
    } else {
        find_value(assigns.skip(1), name)
    }
}

/// One resolution step: every occurrence of `{{name}}` is replaced by the
/// first matching assignment's value; with no matching assignment the text
/// stays as it is.
pub open spec fn apply_var(
    s: Seq<char>,
    name: Seq<char>,
    assigns: Seq<(Seq<char>, Seq<char>)>,
) -> Seq<char> {
    match find_value(assigns, name) {
        Some(v) => replaced(s, placeholder(name), v),
        None => s,
    }
}

/// The text after substituting each declared variable, in declaration order.
pub open spec fn substituted(
    s: Seq<char>,
    vars: Seq<Seq<char>>,
    assigns: Seq<(Seq<char>, Seq<char>)>,
) -> Seq<char>
    decreases vars.len(),
{
    if vars.len() == 0 {
        s
    } else {
        substituted(apply_var(s, vars[0], assigns), vars.skip(1), assigns)
    }
}

/// The value of the first assignment whose key equals `name`, if any.
fn lookup_value(assigns: &Vec<Assignment>, name: &String) -> (r: Option<String>)
    ensures
        match r {
            Some(v) => find_value(pairs_of(assigns@), name@) == Some(v@),
            None => find_value(pairs_of(assigns@), name@) is None,
        },
{
    let ghost pairs = pairs_of(assigns@);
    let mut j: usize = 0;
    proof {
        assert(pairs.skip(0) =~= pairs);
    }
    while j < assigns.len()
        invariant
            j <= assigns@.len(),
            pairs == pairs_of(assigns@),
            pairs.len() == assigns@.len(),
            find_value(pairs, name@) == find_value(pairs.skip(j as int), name@),
        decreases assigns@.len() - j,
    {
        proof {
            assert(pairs.skip(j as int)[0] == pairs[j as int]);
        }
        if assigns[j].key.eq(name) {
            return Some(assigns[j].value.clone());
        }
        proof {
            assert(pairs.skip(j as int).skip(1) =~= pairs.skip(j + 1));
        }
        j = j + 1;
    }
    proof {
        assert(pairs.skip(pairs.len() as int) =~= Seq::<(Seq<char>, Seq<char>)>::empty());
    }
    None
}

/// The characters of the `{{name}}` placeholder.
fn placeholder_chars(name: &String) -> (r: Vec<char>)
    ensures
        r@ == placeholder(name@),
{
    let mut r: Vec<char> = Vec::new();
    r.push('{');
    r.push('{');
    let mut n = chars_of(name.as_str());
    r.append(&mut n);
    r.push('}');
    r.push('}');
    proof {
        assert(r@ =~= placeholder(name@));
    }
    r
}

/// Resolves a template against the supplied assignments: walks the declared
/// variables in declaration order and, for each one with a matching
/// assignment (first match wins), replaces every `{{name}}` occurrence in
/// title, body and branch pattern by the assignment's value.  Declared
/// variables with no matching assignment keep their placeholders; keys that
/// match no declared variable have no effect.
pub fn resolve(t: &Template, assigns: &Vec<Assignment>) -> (r: ResolvedMessage)
    ensures
        r.title@ == substituted(t.title@, t.vars.deep_view(), pairs_of(assigns@)),
        r.body@ == substituted(t.body@, t.vars.deep_view(), pairs_of(assigns@)),
        r.branch_pattern@ == substituted(t.branch_pattern@, t.vars.deep_view(), pairs_of(assigns@)),
{
    let mut title = chars_of(t.title.as_str());
    let mut body = chars_of(t.body.as_str());
    let mut pattern = chars_of(t.branch_pattern.as_str());
    let ghost vars = t.vars.deep_view();
    let ghost pairs = pairs_of(assigns@);
    let mut i: usize = 0;
    proof {
        assert(vars.skip(0) =~= vars);
    }
    while i < t.vars.len()
        invariant
            i <= vars.len(),
            vars == t.vars.deep_view(),
            pairs == pairs_of(assigns@),
            vars.len() == t.vars@.len(),
            substituted(t.title@, vars, pairs) == substituted(title@, vars.skip(i as int), pairs),
            substituted(t.body@, vars, pairs) == substituted(body@, vars.skip(i as int), pairs),
            substituted(t.branch_pattern@, vars, pairs) == substituted(
                pattern@,
                vars.skip(i as int),
                pairs,
            ),
        decreases vars.len() - i,
    {
        let ghost rest = vars.skip(i as int);
        proof {
            assert(rest[0] == vars[i as int]);
            assert(vars[i as int] == t.vars@[i as int]@);
            assert(rest.skip(1) =~= vars.skip(i + 1));
        }
        let name = &t.vars[i];
        match lookup_value(assigns, name) {
            Some(v) => {
                let pat = placeholder_chars(name);
                let val = chars_of(v.as_str());
                proof {
                    assert(pat@.len() >= 4);
                    assert(apply_var(title@, rest[0], pairs) == replaced(title@, pat@, val@));
                    assert(apply_var(body@, rest[0], pairs) == replaced(body@, pat@, val@));
                    assert(apply_var(pattern@, rest[0], pairs) == replaced(pattern@, pat@, val@));
                }
                title = replace_all(&title, &pat, &val);
                body = replace_all(&body, &pat, &val);
                pattern = replace_all(&pattern, &pat, &val);
            },
            None => {
                proof {
                    assert(apply_var(title@, rest[0], pairs) == title@);
                    assert(apply_var(body@, rest[0], pairs) == body@);
                    assert(apply_var(pattern@, rest[0], pairs) == pattern@);
                }
            },
        }
        i = i + 1;
    }
    proof {
        assert(vars.skip(vars.len() as int) =~= Seq::<Seq<char>>::empty());
    }
    ResolvedMessage {
        title: string_of_chars(&title),
        body: string_of_chars(&body),
        branch_pattern: string_of_chars(&pattern),
    }
}

} // verus!
