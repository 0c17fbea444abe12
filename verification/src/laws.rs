//! General properties of the resolver, stated and proved once for all
//! inputs: which assignments can influence a resolution, and when all
//! placeholders are guaranteed substituted or untouched.

use vstd::prelude::*;
use crate::resolve::{apply_var, find_value, placeholder, substituted};
use crate::text::{occurs, occurs_at, replaced};

verus! {

/// A variable name without brace characters; placeholders of such names
/// cannot overlap each other.
pub open spec fn brace_free(s: Seq<char>) -> bool {
    forall|k: int| 0 <= k < s.len() ==> s[k] != '{' && s[k] != '}'
}

/// No `{` character anywhere.
pub open spec fn no_open_brace(s: Seq<char>) -> bool {
    forall|k: int| 0 <= k < s.len() ==> s[k] != '{'
}

/// No `{{` anywhere, hence no placeholder of any name.
pub open spec fn no_double_brace(s: Seq<char>) -> bool {
    forall|i: int| #![trigger s[i], s[i + 1]] 0 <= i && i + 1 < s.len() ==> !(s[i] == '{' && s[i
        + 1] == '{')
}

/// Some declared variable's placeholder occurs at position `i`.
pub open spec fn marker_starts_at(t: Seq<char>, names: Seq<Seq<char>>, i: int) -> bool {
    exists|j: int| 0 <= j < names.len() && occurs_at(t, placeholder(names[j]), i)
}

/// Every `{{` in `t` is the start of a declared variable's placeholder.
pub open spec fn braces_only_mark(t: Seq<char>, names: Seq<Seq<char>>) -> bool {
    forall|i: int| #![trigger t[i], t[i + 1]] 0 <= i && i + 1 < t.len() && t[i] == '{' && t[i + 1]
        == '{' ==> marker_starts_at(t, names, i)
}

/// Resolving with an empty variable list leaves any text unchanged,
/// whatever assignments are supplied.
pub proof fn lemma_resolve_empty_vars(s: Seq<char>, assigns: Seq<(Seq<char>, Seq<char>)>)
    ensures
        substituted(s, Seq::<Seq<char>>::empty(), assigns) == s,
{
}

/// A declared variable with no matching assignment contributes nothing: when
/// no declared variable has a matching assignment, the text stays verbatim.
pub proof fn lemma_no_matching_assignment(
    s: Seq<char>,
    vars: Seq<Seq<char>>,
    assigns: Seq<(Seq<char>, Seq<char>)>,
)
    requires
        forall|j: int| 0 <= j < vars.len() ==> find_value(assigns, #[trigger] vars[j]) is None,
    ensures
        substituted(s, vars, assigns) == s,
    decreases vars.len(),
{
    if vars.len() > 0 {
        assert(apply_var(s, vars[0], assigns) == s);
        assert(forall|j: int|
            0 <= j < vars.skip(1).len() ==> find_value(assigns, #[trigger] vars.skip(1)[j])
                is None);
        lemma_no_matching_assignment(s, vars.skip(1), assigns);
    }
}

/// Two assignment lists that agree on every declared variable resolve any
/// text identically.
proof fn lemma_substituted_agrees(
    s: Seq<char>,
    vars: Seq<Seq<char>>,
    a1: Seq<(Seq<char>, Seq<char>)>,
    a2: Seq<(Seq<char>, Seq<char>)>,
)
    requires
        forall|j: int| 0 <= j < vars.len() ==> find_value(a1, #[trigger] vars[j]) == find_value(
            a2,
            vars[j],
        ),
    ensures
        substituted(s, vars, a1) == substituted(s, vars, a2),
    decreases vars.len(),
{
    if vars.len() > 0 {
        assert(apply_var(s, vars[0], a1) == apply_var(s, vars[0], a2));
        assert(forall|j: int|
            0 <= j < vars.skip(1).len() ==> find_value(a1, #[trigger] vars.skip(1)[j])
                == find_value(a2, vars.skip(1)[j]));
        lemma_substituted_agrees(apply_var(s, vars[0], a1), vars.skip(1), a1, a2);
    }
}

/// Inserting an assignment whose key is not `name` does not change what is
/// found for `name`.
proof fn lemma_find_value_insert(
    assigns: Seq<(Seq<char>, Seq<char>)>,
    i: int,
    pair: (Seq<char>, Seq<char>),
    name: Seq<char>,
)
    requires
        0 <= i <= assigns.len(),
        pair.0 != name,
    ensures
        find_value(assigns.insert(i, pair), name) == find_value(assigns, name),
    decreases i,
{
    let w = assigns.insert(i, pair);
    if i == 0 {
        assert(w[0] == pair);
        assert(w.skip(1) =~= assigns);
    } else {
        assert(w[0] == assigns[0]);
        if assigns[0].0 == name {
        } else {
            assert(w.skip(1) =~= assigns.skip(1).insert(i - 1, pair));
            lemma_find_value_insert(assigns.skip(1), i - 1, pair, name);
        }
    }
}

/// Removing an assignment whose key is not `name` does not change what is
/// found for `name`.
proof fn lemma_find_value_remove_other(
    assigns: Seq<(Seq<char>, Seq<char>)>,
    j: int,
    name: Seq<char>,
)
    requires
        0 <= j < assigns.len(),
        assigns[j].0 != name,
    ensures
        find_value(assigns.remove(j), name) == find_value(assigns, name),
    decreases j,
{
    let w = assigns.remove(j);
    if j == 0 {
        assert(w =~= assigns.skip(1));
    } else {
        assert(w[0] == assigns[0]);
        if assigns[0].0 == name {
        } else {
            assert(w.skip(1) =~= assigns.skip(1).remove(j - 1));
            lemma_find_value_remove_other(assigns.skip(1), j - 1, name);
        }
    }
}

/// Removing a later duplicate of an earlier key does not change what is
/// found for that key: the first assignment in input order wins.
proof fn lemma_find_value_remove_dup(
    assigns: Seq<(Seq<char>, Seq<char>)>,
    i: int,
    j: int,
    name: Seq<char>,
)
    requires
        0 <= i < j < assigns.len(),
        assigns[i].0 == assigns[j].0,
        assigns[j].0 == name,
    ensures
        find_value(assigns.remove(j), name) == find_value(assigns, name),
    decreases j,
{
    let w = assigns.remove(j);
    assert(w[0] == assigns[0]);
    if assigns[0].0 == name {
    } else {
        assert(i != 0);
        assert(w.skip(1) =~= assigns.skip(1).remove(j - 1));
        assert(assigns.skip(1)[i - 1] == assigns[i]);
        assert(assigns.skip(1)[j - 1] == assigns[j]);
        lemma_find_value_remove_dup(assigns.skip(1), i - 1, j - 1, name);
    }
}

/// Assignments whose key matches no declared variable have no effect:
/// inserting one anywhere leaves every resolution unchanged.
pub proof fn lemma_undeclared_key_ignored(
    s: Seq<char>,
    vars: Seq<Seq<char>>,
    assigns: Seq<(Seq<char>, Seq<char>)>,
    i: int,
    pair: (Seq<char>, Seq<char>),
)
    requires
        0 <= i <= assigns.len(),
        forall|k: int| 0 <= k < vars.len() ==> #[trigger] vars[k] != pair.0,
    ensures
        substituted(s, vars, assigns.insert(i, pair)) == substituted(s, vars, assigns),
{
    assert forall|k: int| 0 <= k < vars.len() implies find_value(
        assigns.insert(i, pair),
        #[trigger] vars[k],
    ) == find_value(assigns, vars[k]) by {
        lemma_find_value_insert(assigns, i, pair, vars[k]);
    }
    lemma_substituted_agrees(s, vars, assigns.insert(i, pair), assigns);
}

/// Given duplicate assignments for the same key, the first in input order
/// wins: a later duplicate can be removed without changing any resolution.
pub proof fn lemma_first_assignment_wins(
    s: Seq<char>,
    vars: Seq<Seq<char>>,
    assigns: Seq<(Seq<char>, Seq<char>)>,
    i: int,
    j: int,
)
    requires
        0 <= i < j < assigns.len(),
        assigns[i].0 == assigns[j].0,
    ensures
        substituted(s, vars, assigns.remove(j)) == substituted(s, vars, assigns),
{
    assert forall|k: int| 0 <= k < vars.len() implies find_value(
        assigns.remove(j),
        #[trigger] vars[k],
    ) == find_value(assigns, vars[k]) by {
        if vars[k] == assigns[j].0 {
            lemma_find_value_remove_dup(assigns, i, j, vars[k]);
        } else {
            lemma_find_value_remove_other(assigns, j, vars[k]);
        }
    }
    lemma_substituted_agrees(s, vars, assigns.remove(j), assigns);
}

proof fn lemma_placeholder_shape(name: Seq<char>)
    ensures
        placeholder(name).len() == name.len() + 4,
        placeholder(name)[0] == '{',
        placeholder(name)[1] == '{',
        forall|k: int| 0 <= k < name.len() ==> placeholder(name)[2 + k] == name[k],
        placeholder(name)[name.len() as int + 2] == '}',
        placeholder(name)[name.len() as int + 3] == '}',
{
    assert(placeholder(name).len() == name.len() + 4);
    assert forall|k: int| 0 <= k < name.len() implies placeholder(name)[2 + k] == name[k] by {
        assert((seq!['{', '{'] + name)[2 + k] == name[k]);
    }
}

proof fn lemma_occ_skip(t: Seq<char>, p: Seq<char>, d: int, i: int)
    requires
        0 <= d <= i,
        occurs_at(t, p, i),
    ensures
        occurs_at(t.skip(d), p, i - d),
{
    assert(t.skip(d).subrange(i - d, i - d + p.len() as int) =~= t.subrange(
        i,
        i + p.len() as int,
    ));
}

proof fn lemma_occ_unskip(t: Seq<char>, p: Seq<char>, d: int, m: int)
    requires
        0 <= d <= t.len(),
        occurs_at(t.skip(d), p, m),
    ensures
        occurs_at(t, p, m + d),
{
    assert(t.subrange(m + d, m + d + p.len() as int) =~= t.skip(d).subrange(
        m,
        m + p.len() as int,
    ));
}

proof fn lemma_occ_concat_right(a: Seq<char>, b: Seq<char>, p: Seq<char>, m: int)
    requires
        occurs_at(b, p, m),
    ensures
        occurs_at(a + b, p, a.len() + m),
{
    assert((a + b).subrange(a.len() + m, a.len() + m + p.len() as int) =~= b.subrange(
        m,
        m + p.len() as int,
    ));
}

/// Inside a placeholder occurrence of a brace-free name, no `{{` starts
/// after the occurrence's own first position.
proof fn lemma_no_brace_pair_inside(t: Seq<char>, name: Seq<char>, i: int, q: int)
    requires
        brace_free(name),
        occurs_at(t, placeholder(name), i),
        i < q < i + placeholder(name).len(),
        q + 1 < t.len(),
    ensures
        !(t[q] == '{' && t[q + 1] == '{'),
{
    lemma_placeholder_shape(name);
    let p = placeholder(name);
    let d = q - i;
    assert(t.subrange(i, i + p.len() as int)[d] == t[q]);
    assert(t[q] == p[d]);
    if t[q] == '{' {
        if 2 <= d && d < name.len() + 2 {
            assert(p[d] == name[d - 2]);
            assert(false);
        }
        if d == name.len() + 2 || d == name.len() + 3 {
            assert(false);
        }
        assert(d == 1);
        assert(t.subrange(i, i + p.len() as int)[2] == t[i + 2]);
        assert(t[q + 1] == p[2]);
        if name.len() == 0 {
            assert(p[2] == '}');
        } else {
            assert(p[2] == name[0]);
        }
        assert(t[q + 1] != '{');
    }
}

/// Two placeholders of brace-free names occurring at the same position are
/// the same placeholder.
proof fn lemma_same_position_same_name(t: Seq<char>, a: Seq<char>, b: Seq<char>, i: int)
    requires
        brace_free(a),
        brace_free(b),
        occurs_at(t, placeholder(a), i),
        occurs_at(t, placeholder(b), i),
    ensures
        a == b,
{
    lemma_placeholder_shape(a);
    lemma_placeholder_shape(b);
    let pa = placeholder(a);
    let pb = placeholder(b);
    if a.len() < b.len() {
        let d = a.len() as int + 2;
        assert(t.subrange(i, i + pa.len() as int)[d] == t[i + d]);
        assert(t[i + d] == pa[d]);
        assert(t.subrange(i, i + pb.len() as int)[d] == t[i + d]);
        assert(t[i + d] == pb[d]);
        assert(pa[d] == '}');
        assert(pb[d] == b[d - 2]);
        assert(false);
    } else if b.len() < a.len() {
        let d = b.len() as int + 2;
        assert(t.subrange(i, i + pb.len() as int)[d] == t[i + d]);
        assert(t.subrange(i, i + pa.len() as int)[d] == t[i + d]);
        assert(pb[d] == '}');
        assert(pa[d] == a[d - 2]);
        assert(false);
    } else {
        assert forall|k: int| 0 <= k < a.len() implies a[k] == b[k] by {
            assert(pa[2 + k] == a[k]);
            assert(pb[2 + k] == b[k]);
            assert(t.subrange(i, i + pa.len() as int)[2 + k] == t[i + 2 + k]);
            assert(t.subrange(i, i + pb.len() as int)[2 + k] == t[i + 2 + k]);
        }
        assert(a =~= b);
    }
}

/// When no occurrence of `pat` starts before position `m`, replacing leaves
/// the first `m` characters verbatim.
proof fn lemma_replaced_skip_prefix(u: Seq<char>, pat: Seq<char>, val: Seq<char>, m: int)
    requires
        pat.len() >= 1,
        0 <= m <= u.len(),
        forall|q: int| 0 <= q < m ==> !occurs_at(u, pat, q),
    ensures
        replaced(u, pat, val) == u.take(m) + replaced(u.skip(m), pat, val),
    decreases m,
{
    if m == 0 {
        assert(u.skip(0) =~= u);
        assert(u.take(0) + replaced(u, pat, val) =~= replaced(u, pat, val));
    } else {
        assert(!occurs_at(u, pat, 0));
        if u.len() < pat.len() {
            assert(replaced(u, pat, val) == u);
            assert(u.skip(m).len() < pat.len());
            assert(replaced(u.skip(m), pat, val) == u.skip(m));
            assert(u.take(m) + u.skip(m) =~= u);
        } else {
            assert(u.subrange(0, pat.len() as int) != pat);
            assert forall|q: int| 0 <= q < m - 1 implies !occurs_at(u.skip(1), pat, q) by {
                if occurs_at(u.skip(1), pat, q) {
                    lemma_occ_unskip(u, pat, 1, q);
                }
            }
            lemma_replaced_skip_prefix(u.skip(1), pat, val, m - 1);
            assert(u.skip(1).skip(m - 1) =~= u.skip(m));
            assert(seq![u[0]] + (u.skip(1).take(m - 1) + replaced(u.skip(m), pat, val)) =~= u.take(
                m,
            ) + replaced(u.skip(m), pat, val));
        }
    }
}

/// Replacing one placeholder cannot destroy an occurrence of a different
/// brace-free placeholder: it is still present afterwards.
proof fn lemma_occurrence_survives(
    t: Seq<char>,
    name0: Seq<char>,
    val: Seq<char>,
    b: Seq<char>,
    i: int,
)
    requires
        brace_free(name0),
        brace_free(b),
        b != name0,
        occurs_at(t, placeholder(b), i),
    ensures
        occurs(replaced(t, placeholder(name0), val), placeholder(b)),
    decreases t.len(),
{
    let p0 = placeholder(name0);
    let pb = placeholder(b);
    lemma_placeholder_shape(name0);
    lemma_placeholder_shape(b);
    let r = replaced(t, p0, val);
    if t.len() < p0.len() {
        assert(r == t);
        assert(occurs_at(r, pb, i));
    } else if t.subrange(0, p0.len() as int) == p0 {
        assert(occurs_at(t, p0, 0));
        if i == 0 {
            lemma_same_position_same_name(t, b, name0, 0);
            assert(false);
        } else if i < p0.len() {
            assert(t.subrange(i, i + pb.len() as int)[0] == t[i]);
            assert(t.subrange(i, i + pb.len() as int)[1] == t[i + 1]);
            assert(t[i] == '{' && t[i + 1] == '{');
            lemma_no_brace_pair_inside(t, name0, 0, i);
            assert(false);
        } else {
            lemma_occ_skip(t, pb, p0.len() as int, i);
            lemma_occurrence_survives(t.skip(p0.len() as int), name0, val, b, i - p0.len());
            let r2 = replaced(t.skip(p0.len() as int), p0, val);
            let m = choose|m: int| occurs_at(r2, pb, m);
            assert(occurs_at(r2, pb, m));
            lemma_occ_concat_right(val, r2, pb, m);
            assert(occurs_at(r, pb, val.len() + m));
        }
    } else {
        let r2 = replaced(t.skip(1), p0, val);
        if i >= 1 {
            lemma_occ_skip(t, pb, 1, i);
            lemma_occurrence_survives(t.skip(1), name0, val, b, i - 1);
            let m = choose|m: int| occurs_at(r2, pb, m);
            assert(occurs_at(r2, pb, m));
            lemma_occ_concat_right(seq![t[0]], r2, pb, m);
            assert(occurs_at(r, pb, 1 + m));
        } else {
            assert forall|q: int| 0 <= q < pb.len() - 1 implies !occurs_at(t.skip(1), p0, q) by {
                if occurs_at(t.skip(1), p0, q) {
                    lemma_occ_unskip(t, p0, 1, q);
                    assert(t.subrange(q + 1, q + 1 + p0.len() as int)[0] == t[q + 1]);
                    assert(t.subrange(q + 1, q + 1 + p0.len() as int)[1] == t[q + 2]);
                    assert(t[q + 1] == '{' && t[q + 2] == '{');
                    lemma_no_brace_pair_inside(t, b, 0, q + 1);
                    assert(false);
                }
            }
            lemma_replaced_skip_prefix(t.skip(1), p0, val, pb.len() - 1);
            let kept = t.skip(1).take(pb.len() - 1);
            assert(r2 == kept + replaced(t.skip(1).skip(pb.len() - 1), p0, val));
            assert(r == seq![t[0]] + r2);
            assert(r.len() >= pb.len());
            assert forall|k: int| 0 <= k < pb.len() implies r[k] == pb[k] by {
                assert(t.subrange(0, pb.len() as int)[k] == t[k]);
                if k == 0 {
                    assert(r[0] == t[0]);
                } else if k < pb.len() {
                    assert(r[k] == r2[k - 1]);
                    assert(r2[k - 1] == kept[k - 1]);
                    assert(kept[k - 1] == t.skip(1)[k - 1]);
                    assert(t.skip(1)[k - 1] == t[k]);
                }
            }
            assert(r.subrange(0, pb.len() as int) =~= pb);
            assert(occurs_at(r, pb, 0));
        }
    }
}

/// Replacing one declared placeholder with a value free of `{` keeps the
/// property that every `{{` starts a still-declared placeholder.
proof fn lemma_replace_keeps_markers(
    t: Seq<char>,
    name0: Seq<char>,
    val: Seq<char>,
    names: Seq<Seq<char>>,
)
    requires
        brace_free(name0),
        forall|j: int| 0 <= j < names.len() ==> brace_free(#[trigger] names[j]),
        no_open_brace(val),
        forall|i: int| #![trigger t[i], t[i + 1]] 0 <= i && i + 1 < t.len() && t[i] == '{' && t[i
            + 1] == '{' ==> (occurs_at(t, placeholder(name0), i) || marker_starts_at(t, names, i)),
    ensures
        braces_only_mark(replaced(t, placeholder(name0), val), names),
    decreases t.len(),
{
    let p0 = placeholder(name0);
    lemma_placeholder_shape(name0);
    let r = replaced(t, p0, val);
    if t.len() < p0.len() {
        assert(r == t);
        assert forall|i: int| 0 <= i && i + 1 < r.len() && r[i] == '{' && r[i + 1] == '{' implies
            marker_starts_at(r, names, i) by {
            assert(!occurs_at(t, p0, i));
        }
    } else if t.subrange(0, p0.len() as int) == p0 {
        let t2 = t.skip(p0.len() as int);
        assert forall|i: int| 0 <= i && i + 1 < t2.len() && t2[i] == '{' && t2[i + 1] == '{'
            implies (occurs_at(t2, p0, i) || marker_starts_at(t2, names, i)) by {
            let ii: int = i + p0.len();
            assert(t2[i] == t[ii]);
            assert(t2[i + 1] == t[ii + 1]);
            assert(t[ii] == '{' && t[ii + 1] == '{');
            if occurs_at(t, p0, ii) {
                lemma_occ_skip(t, p0, p0.len() as int, ii);
            } else {
                assert(marker_starts_at(t, names, ii));
                let j = choose|j: int|
                    0 <= j < names.len() && occurs_at(t, placeholder(names[j]), ii);
                lemma_occ_skip(t, placeholder(names[j]), p0.len() as int, ii);
            }
        }
        lemma_replace_keeps_markers(t2, name0, val, names);
        let r2 = replaced(t2, p0, val);
        assert(r == val + r2);
        assert forall|i: int| 0 <= i && i + 1 < r.len() && r[i] == '{' && r[i + 1] == '{' implies
            marker_starts_at(r, names, i) by {
            if i < val.len() {
                assert(r[i] == val[i]);
                assert(false);
            } else {
                let m = i - val.len();
                assert(r[i] == r2[m]);
                assert(r[i + 1] == r2[m + 1]);
                assert(r2[m] == '{' && r2[m + 1] == '{');
                assert(marker_starts_at(r2, names, m));
                let j = choose|j: int|
                    0 <= j < names.len() && occurs_at(r2, placeholder(names[j]), m);
                lemma_occ_concat_right(val, r2, placeholder(names[j]), m);
            }
        }
    } else {
        let t2 = t.skip(1);
        assert forall|i: int| 0 <= i && i + 1 < t2.len() && t2[i] == '{' && t2[i + 1] == '{'
            implies (occurs_at(t2, p0, i) || marker_starts_at(t2, names, i)) by {
            let ii: int = i + 1;
            assert(t2[i] == t[ii]);
            assert(t2[i + 1] == t[ii + 1]);
            assert(t[ii] == '{' && t[ii + 1] == '{');
            if occurs_at(t, p0, i + 1) {
                lemma_occ_skip(t, p0, 1, i + 1);
            } else {
                assert(marker_starts_at(t, names, i + 1));
                let j = choose|j: int|
                    0 <= j < names.len() && occurs_at(t, placeholder(names[j]), i + 1);
                lemma_occ_skip(t, placeholder(names[j]), 1, i + 1);
            }
        }
        lemma_replace_keeps_markers(t2, name0, val, names);
        let r2 = replaced(t2, p0, val);
        assert(r == seq![t[0]] + r2);
        assert forall|i: int| 0 <= i && i + 1 < r.len() && r[i] == '{' && r[i + 1] == '{' implies
            marker_starts_at(r, names, i) by {
            if i >= 1 {
                let m: int = i - 1;
                assert(r[i] == r2[m]);
                assert(r[i + 1] == r2[m + 1]);
                assert(r2[m] == '{' && r2[m + 1] == '{');
                assert(marker_starts_at(r2, names, m));
                let j = choose|j: int|
                    0 <= j < names.len() && occurs_at(r2, placeholder(names[j]), m);
                lemma_occ_concat_right(seq![t[0]], r2, placeholder(names[j]), m);
            } else {
                assert(r[0] == t[0]);
                assert(r[1] == r2[0]);
                if t2.len() < p0.len() {
                    assert(r2 == t2);
                    assert(t[1] == r2[0]);
                } else if t2.subrange(0, p0.len() as int) == p0 {
                    assert(t2[0] == p0[0]);
                    assert(t[1] == t2[0]);
                } else {
                    assert(r2 == seq![t2[0]] + replaced(t2.skip(1), p0, val));
                    assert(t[1] == t2[0]);
                }
                assert(t[0] == '{' && t[1] == '{');
                assert(1 < t.len());
                assert(!occurs_at(t, p0, 0));
                assert(marker_starts_at(t, names, 0));
                let j = choose|j: int|
                    0 <= j < names.len() && occurs_at(t, placeholder(names[j]), 0);
                let pj = placeholder(names[j]);
                lemma_placeholder_shape(names[j]);
                assert forall|q: int| 0 <= q < pj.len() - 1 implies !occurs_at(t2, p0, q) by {
                    if occurs_at(t2, p0, q) {
                        lemma_occ_unskip(t, p0, 1, q);
                        assert(t.subrange(q + 1, q + 1 + p0.len() as int)[0] == t[q + 1]);
                        assert(t.subrange(q + 1, q + 1 + p0.len() as int)[1] == t[q + 2]);
                        assert(t[q + 1] == '{' && t[q + 2] == '{');
                        lemma_no_brace_pair_inside(t, names[j], 0, q + 1);
                        assert(false);
                    }
                }
                lemma_replaced_skip_prefix(t2, p0, val, pj.len() - 1);
                let kept = t2.take(pj.len() - 1);
                assert(r2 == kept + replaced(t2.skip(pj.len() - 1), p0, val));
                assert(r.len() >= pj.len());
                assert forall|k: int| 0 <= k < pj.len() implies r[k] == pj[k] by {
                    assert(t.subrange(0, pj.len() as int)[k] == t[k]);
                    if k == 0 {
                        assert(r[0] == t[0]);
                    } else {
                        assert(r[k] == r2[k - 1]);
                        assert(r2[k - 1] == kept[k - 1]);
                        assert(kept[k - 1] == t2[k - 1]);
                        assert(t2[k - 1] == t[k]);
                    }
                }
                assert(r.subrange(0, pj.len() as int) =~= pj);
                assert(occurs_at(r, pj, 0));
            }
        }
    }
}

/// Every declared variable finds a matching assignment whose value holds no
/// `{` character.
pub open spec fn fully_assigned(vars: Seq<Seq<char>>, assigns: Seq<(Seq<char>, Seq<char>)>) -> bool {
    forall|j: int| 0 <= j < vars.len() ==> ((#[trigger] find_value(assigns, vars[j])) matches Some(
        v,
    ) && no_open_brace(v))
}

/// With brace-free declared names, a matching brace-free value for every
/// declared variable, and `{{` occurring in the text only where a declared
/// placeholder starts, resolution substitutes every placeholder: the result
/// holds no `{{` at all.
pub proof fn lemma_full_assignment_substitutes_all(
    s: Seq<char>,
    vars: Seq<Seq<char>>,
    assigns: Seq<(Seq<char>, Seq<char>)>,
)
    requires
        forall|j: int| 0 <= j < vars.len() ==> brace_free(#[trigger] vars[j]),
        fully_assigned(vars, assigns),
        braces_only_mark(s, vars),
    ensures
        no_double_brace(substituted(s, vars, assigns)),
    decreases vars.len(),
{
    if vars.len() == 0 {
        assert forall|i: int| #![trigger s[i], s[i + 1]] 0 <= i && i + 1 < s.len() implies !(s[i]
            == '{' && s[i + 1] == '{') by {
            if s[i] == '{' && s[i + 1] == '{' {
                assert(marker_starts_at(s, vars, i));
                assert(false);
            }
        }
    } else {
        let name0 = vars[0];
        assert(find_value(assigns, vars[0]) matches Some(v) && no_open_brace(v));
        let v = find_value(assigns, name0)->Some_0;
        let s1 = apply_var(s, name0, assigns);
        assert(s1 == replaced(s, placeholder(name0), v));
        assert forall|i: int| 0 <= i && i + 1 < s.len() && s[i] == '{' && s[i + 1] == '{' implies
            (occurs_at(s, placeholder(name0), i) || marker_starts_at(s, vars.skip(1), i)) by {
            assert(marker_starts_at(s, vars, i));
            let j = choose|j: int| 0 <= j < vars.len() && occurs_at(s, placeholder(vars[j]), i);
            if j == 0 {
            } else {
                assert(vars.skip(1)[j - 1] == vars[j]);
                assert(occurs_at(s, placeholder(vars.skip(1)[j - 1]), i));
            }
        }
        assert(forall|j: int|
            0 <= j < vars.skip(1).len() ==> brace_free(#[trigger] vars.skip(1)[j]));
        lemma_replace_keeps_markers(s, name0, v, vars.skip(1));
        assert(forall|j: int|
            0 <= j < vars.skip(1).len() ==> ((#[trigger] find_value(assigns, vars.skip(1)[j]))
                matches Some(w) && no_open_brace(w)));
        lemma_full_assignment_substitutes_all(s1, vars.skip(1), assigns);
    }
}

/// With the premises above, no declared placeholder remains in the output:
/// every `{{name}}` of a declared `name` was replaced.
pub proof fn lemma_no_placeholder_remains(
    s: Seq<char>,
    vars: Seq<Seq<char>>,
    assigns: Seq<(Seq<char>, Seq<char>)>,
    j: int,
)
    requires
        forall|k: int| 0 <= k < vars.len() ==> brace_free(#[trigger] vars[k]),
        fully_assigned(vars, assigns),
        braces_only_mark(s, vars),
        0 <= j < vars.len(),
    ensures
        !occurs(substituted(s, vars, assigns), placeholder(vars[j])),
{
    lemma_full_assignment_substitutes_all(s, vars, assigns);
    let r = substituted(s, vars, assigns);
    let p = placeholder(vars[j]);
    lemma_placeholder_shape(vars[j]);
    if occurs(r, p) {
        let i = choose|i: int| occurs_at(r, p, i);
        assert(occurs_at(r, p, i));
        assert(r.subrange(i, i + p.len() as int)[0] == r[i]);
        assert(r.subrange(i, i + p.len() as int)[1] == r[i + 1]);
        assert(r[i] == '{' && r[i + 1] == '{');
        assert(false);
    }
}

/// A placeholder whose name has no matching assignment survives resolution:
/// an unmatched placeholder is left in the output, not removed.
pub proof fn lemma_unmatched_placeholder_survives(
    s: Seq<char>,
    vars: Seq<Seq<char>>,
    assigns: Seq<(Seq<char>, Seq<char>)>,
    x: Seq<char>,
    i: int,
)
    requires
        brace_free(x),
        forall|j: int| 0 <= j < vars.len() ==> brace_free(#[trigger] vars[j]),
        find_value(assigns, x) is None,
        occurs_at(s, placeholder(x), i),
    ensures
        occurs(substituted(s, vars, assigns), placeholder(x)),
    decreases vars.len(),
{
    if vars.len() == 0 {
        assert(occurs_at(s, placeholder(x), i));
    } else {
        let s1 = apply_var(s, vars[0], assigns);
        assert(forall|j: int|
            0 <= j < vars.skip(1).len() ==> brace_free(#[trigger] vars.skip(1)[j]));
        if find_value(assigns, vars[0]) is None {
            assert(s1 == s);
            lemma_unmatched_placeholder_survives(s, vars.skip(1), assigns, x, i);
        } else {
            let v = find_value(assigns, vars[0])->Some_0;
            assert(vars[0] != x);
            lemma_occurrence_survives(s, vars[0], v, x, i);
            let m = choose|m: int| occurs_at(s1, placeholder(x), m);
            assert(occurs_at(s1, placeholder(x), m));
            lemma_unmatched_placeholder_survives(s1, vars.skip(1), assigns, x, m);
        }
    }
}

} // verus!
