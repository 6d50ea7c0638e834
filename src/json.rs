//! A JSON value as the kernel reads it, and the rules that shape tool
//! arguments: null-string normalisation, planner precedence, required-field
//! presence, and the elicitation trigger of a tool call.

use vstd::prelude::*;
use crate::text::{chars_of, lower_seq, to_ascii_lower, trim_chars, trimmed};

verus! {

/// A JSON value. A number is held as its decimal text; an object as its
/// entries in order.
#[derive(Debug, PartialEq)]
pub enum Json {
    Null,
    Bool(bool),
    Number(String),
    Str(String),
    Array(Vec<Json>),
    Object(Vec<(String, Json)>),
}

pub open spec fn null_word() -> Seq<char> {
    seq!['n', 'u', 'l', 'l']
}

/// Text that stands for null: `null` in any ASCII case, after trimming.
pub open spec fn is_null_text(s: Seq<char>) -> bool {
    lower_seq(trimmed(s)) == null_word()
}

/// `b` is `a` with every null-standing string replaced by JSON null.
pub open spec fn normalizes_to(a: Json, b: Json) -> bool
    decreases a,
{
    match a {
        Json::Str(s) => if is_null_text(s@) {
            b is Null
        } else {
            b is Str && b->Str_0@ == s@
        },
        Json::Array(xs) => b is Array && b->Array_0.len() == xs.len() && forall|i: int|
            0 <= i < xs.len() ==> normalizes_to(#[trigger] xs@[i], b->Array_0@[i]),
        Json::Object(es) => b is Object && b->Object_0.len() == es.len() && forall|i: int|
            0 <= i < es.len() ==> (#[trigger] es@[i]).0@ == b->Object_0@[i].0@ && normalizes_to(
                es@[i].1,
                b->Object_0@[i].1,
            ),
        Json::Number(n) => b is Number && b->Number_0@ == n@,
        _ => b == a,
    }
}

/// No string anywhere in `v` stands for null.
pub open spec fn null_free(v: Json) -> bool
    decreases v,
{
    match v {
        Json::Str(s) => !is_null_text(s@),
        Json::Array(xs) => forall|i: int| 0 <= i < xs.len() ==> null_free(#[trigger] xs@[i]),
        Json::Object(es) => forall|i: int| 0 <= i < es.len() ==> null_free((#[trigger] es@[i]).1),
        _ => true,
    }
}

/// No value among these entries holds a null-standing string.
pub open spec fn entries_null_free(es: Seq<(String, Json)>) -> bool {
    forall|i: int| 0 <= i < es.len() ==> null_free((#[trigger] es[i]).1)
}

/// Whether `s` stands for null.
pub fn null_text(s: &String) -> (r: bool)
    ensures
        r == is_null_text(s@),
{
    let cs = chars_of(s.as_str());
    let t = trim_chars(&cs);
    let l = to_ascii_lower(&t);
    let r = l.len() == 4 && l[0] == 'n' && l[1] == 'u' && l[2] == 'l' && l[3] == 'l';
    assert(r ==> l@ =~= null_word());
    r
}

/// Replaces, at any depth, every string that reads `null` (any ASCII case,
/// surrounding whitespace ignored) by JSON null.
pub fn normalize_null_strings(v: Json) -> (r: Json)
    ensures
        normalizes_to(v, r),
        null_free(r),
    decreases v,
{
    match v {
        Json::Str(s) => {
            if null_text(&s) {
                Json::Null
            } else {
                Json::Str(s)
            }
        },
        Json::Array(xs) => {
            let ghost orig = xs@;
            let mut rest = xs;
            let mut out: Vec<Json> = Vec::new();
            let ghost mut k: int = 0;
            while rest.len() > 0
                invariant
                    k + rest.len() == orig.len(),
                    0 <= k <= orig.len(),
                    rest@ == orig.subrange(k, orig.len() as int),
                    out.len() == k,
                    forall|i: int| 0 <= i < k ==> normalizes_to(#[trigger] orig[i], out@[i]),
                    forall|i: int| 0 <= i < k ==> null_free(#[trigger] out@[i]),
                    forall|i: int| 0 <= i < orig.len() ==> decreases_to!(v => #[trigger] orig[i]),
                decreases rest.len(),
            {
                let item = rest.remove(0);
                assert(item == orig[k]);
                let n = normalize_null_strings(item);
                out.push(n);
                proof {
                    k = k + 1;
                }
                assert(rest@ =~= orig.subrange(k, orig.len() as int));
            }
            Json::Array(out)
        },
        Json::Object(es) => {
            let ghost orig = es@;
            let mut rest = es;
            let mut out: Vec<(String, Json)> = Vec::new();
            let ghost mut k: int = 0;
            while rest.len() > 0
                invariant
                    k + rest.len() == orig.len(),
                    0 <= k <= orig.len(),
                    rest@ == orig.subrange(k, orig.len() as int),
                    out.len() == k,
                    forall|i: int|
                        0 <= i < k ==> (#[trigger] orig[i]).0@ == out@[i].0@ && normalizes_to(
                            orig[i].1,
                            out@[i].1,
                        ),
                    forall|i: int| 0 <= i < k ==> null_free((#[trigger] out@[i]).1),
                    forall|i: int| 0 <= i < orig.len() ==> decreases_to!(v => (#[trigger] orig[i]).1),
                decreases rest.len(),
            {
                let (key, item) = rest.remove(0);
                assert(item == orig[k].1);
                let n = normalize_null_strings(item);
                out.push((key, n));
                proof {
                    k = k + 1;
                }
                assert(rest@ =~= orig.subrange(k, orig.len() as int));
            }
            Json::Object(out)
        },
        other => other,
    }
}

/// The index of the first entry at or after `i` whose key is `k`, or -1.
pub open spec fn first_key_from(es: Seq<(String, Json)>, k: Seq<char>, i: int) -> int
    decreases es.len() - i,
{
    if i < 0 || i >= es.len() {
        -1
    } else if es[i].0@ == k {
        i
    } else {
        first_key_from(es, k, i + 1)
    }
}

/// The value of key `k` in the entries of an object: the first entry wins.
pub open spec fn lookup(es: Seq<(String, Json)>, k: Seq<char>) -> Option<Json> {
    let i = first_key_from(es, k, 0);
    if i < 0 {
        None
    } else {
        Some(es[i].1)
    }
}

pub proof fn lemma_first_key_from(es: Seq<(String, Json)>, k: Seq<char>, i: int)
    requires
        0 <= i,
    ensures
        first_key_from(es, k, i) == -1 ==> forall|j: int| i <= j < es.len() ==> es[j].0@ != k,
        first_key_from(es, k, i) != -1 ==> {
            let f = first_key_from(es, k, i);
            &&& i <= f < es.len()
            &&& es[f].0@ == k
            &&& forall|j: int| i <= j < f ==> es[j].0@ != k
        },
    decreases es.len() - i,
{
    if i < es.len() && es[i].0@ != k {
        lemma_first_key_from(es, k, i + 1);
    }
}

/// Entries with the same keys, position by position, find keys alike.
proof fn lemma_same_keys(a: Seq<(String, Json)>, b: Seq<(String, Json)>, k: Seq<char>, i: int)
    requires
        a.len() == b.len(),
        forall|j: int| 0 <= j < a.len() ==> a[j].0@ == b[j].0@,
    ensures
        first_key_from(a, k, i) == first_key_from(b, k, i),
    decreases a.len() - i,
{
    if 0 <= i < a.len() && a[i].0@ != k {
        lemma_same_keys(a, b, k, i + 1);
    }
}

/// Appending an entry keeps every earlier answer, and answers for its key
/// where nothing earlier did.
proof fn lemma_push_key(a: Seq<(String, Json)>, e: (String, Json), k: Seq<char>, i: int)
    requires
        0 <= i <= a.len(),
    ensures
        first_key_from(a, k, i) != -1 ==> first_key_from(a.push(e), k, i) == first_key_from(a, k, i),
        first_key_from(a, k, i) == -1 ==> first_key_from(a.push(e), k, i) == (if e.0@ == k {
            a.len() as int
        } else {
            -1
        }),
    decreases a.len() - i,
{
    let b = a.push(e);
    if i < a.len() {
        assert(b[i] == a[i]);
        if a[i].0@ != k {
            lemma_push_key(a, e, k, i + 1);
        }
    } else {
        assert(b[i] == e);
        assert(first_key_from(b, k, i + 1) == -1);
    }
}

/// The position of the first entry whose key is `k`.
pub fn find_key(es: &Vec<(String, Json)>, k: &String) -> (r: Option<usize>)
    ensures
        match r {
            Some(i) => i as int == first_key_from(es@, k@, 0),
            None => first_key_from(es@, k@, 0) == -1,
        },
{
    let mut i: usize = 0;
    while i < es.len()
        invariant
            i <= es.len(),
            first_key_from(es@, k@, 0) == first_key_from(es@, k@, i as int),
        decreases es.len() - i,
    {
        if es[i].0 == *k {
            return Some(i);
        }
        i = i + 1;
    }
    None
}

/// Sets key `k` to `v`: the first entry under `k` takes the value, or a new
/// entry is appended. Every other key keeps its value.
pub fn set_key(es: &mut Vec<(String, Json)>, k: String, v: Json)
    ensures
        lookup(final(es)@, k@) == Some(v),
        forall|k2: Seq<char>| k2 != k@ ==> #[trigger] lookup(final(es)@, k2) == lookup(old(es)@, k2),
        forall|i: int| 0 <= i < final(es).len() ==> (#[trigger] final(es)@[i]).1 == v || exists|j: int|
            0 <= j < old(es).len() && old(es)@[j].1 == final(es)@[i].1,
{
    let ghost kv = k@;
    let pos = find_key(es, &k);
    proof {
        lemma_first_key_from(es@, kv, 0);
    }
    match pos {
        Some(i) => {
            es.set(i, (k, v));
            proof {
                assert forall|j: int| 0 <= j < es.len() implies es@[j].0@ == old(es)@[j].0@ by {}
                assert forall|k2: Seq<char>| #[trigger] first_key_from(es@, k2, 0) == first_key_from(
                    old(es)@,
                    k2,
                    0,
                ) by {
                    lemma_same_keys(es@, old(es)@, k2, 0);
                }
                assert forall|k2: Seq<char>| k2 != kv implies #[trigger] lookup(es@, k2) == lookup(
                    old(es)@,
                    k2,
                ) by {
                    assert(first_key_from(es@, k2, 0) == first_key_from(old(es)@, k2, 0));
                    lemma_first_key_from(old(es)@, k2, 0);
                }
                assert forall|j: int| 0 <= j < es.len() && (#[trigger] es@[j]).1 != v implies exists|j2: int|
                    0 <= j2 < old(es).len() && old(es)@[j2].1 == es@[j].1 by {
                    assert(old(es)@[j].1 == es@[j].1);
                }
            }
        },
        None => {
            es.push((k, v));
            proof {
                let e = es@.last();
                assert(es@ == old(es)@.push(e));
                assert forall|k2: Seq<char>| k2 != kv implies #[trigger] lookup(es@, k2) == lookup(
                    old(es)@,
                    k2,
                ) by {
                    lemma_push_key(old(es)@, e, k2, 0);
                    lemma_first_key_from(old(es)@, k2, 0);
                }
                lemma_push_key(old(es)@, e, kv, 0);
                assert forall|j: int| 0 <= j < es.len() && (#[trigger] es@[j]).1 != v implies exists|j2: int|
                    0 <= j2 < old(es).len() && old(es)@[j2].1 == es@[j].1 by {
                    assert(old(es)@[j].1 == es@[j].1);
                }
            }
        },
    }
}

/// The value that a required field ends up with: what it had, unless that
/// was absent or null, in which case null.
pub open spec fn filled_value(es: Seq<(String, Json)>, k: Seq<char>) -> Json {
    match lookup(es, k) {
        Some(x) => if x is Null {
            Json::Null
        } else {
            x
        },
        None => Json::Null,
    }
}

/// Whether `k` is one of the names in `fields`.
pub open spec fn names_contain(fields: Seq<String>, k: Seq<char>) -> bool {
    exists|i: int| 0 <= i < fields.len() && #[trigger] fields[i]@ == k
}

/// Makes every required field present in an object: a field that is absent
/// or null is set to null, which signals that the user must be asked for it.
/// Any other value is left as it is.
pub fn ensure_required_fields_present(v: Json, required_fields: &Vec<String>) -> (r: Json)
    ensures
        !(v is Object) ==> r == v,
        v is Object ==> r is Object,
        v is Object ==> forall|k: Seq<char>|
            #[trigger] lookup(r->Object_0@, k) == if names_contain(required_fields@, k) {
                Some(filled_value(v->Object_0@, k))
            } else {
                lookup(v->Object_0@, k)
            },
        null_free(v) ==> null_free(r),
{
    match v {
        Json::Object(es) => {
            let ghost orig = es@;
            let mut es = es;
            let mut i: usize = 0;
            while i < required_fields.len()
                invariant
                    i <= required_fields.len(),
                    forall|k: Seq<char>|
                        #[trigger] lookup(es@, k) == if names_contain(
                            required_fields@.subrange(0, i as int),
                            k,
                        ) {
                            Some(filled_value(orig, k))
                        } else {
                            lookup(orig, k)
                        },
                    entries_null_free(orig) ==> forall|j: int|
                        0 <= j < es.len() ==> null_free((#[trigger] es@[j]).1),
                decreases required_fields.len() - i,
            {
                let field = &required_fields[i];
                let ghost fk = field@;
                let ghost before = es@;
                let pos = find_key(&es, field);
                proof {
                    lemma_first_key_from(before, fk, 0);
                }
                let keep = match pos {
                    Some(j) => !matches!(es[j].1, Json::Null),
                    None => false,
                };
                if !keep {
                    set_key(&mut es, field.clone(), Json::Null);
                }
                proof {
                    let pre = required_fields@.subrange(0, i as int);
                    let post = required_fields@.subrange(0, i + 1);
                    assert forall|k: Seq<char>| #[trigger] names_contain(post, k) == (names_contain(pre, k) || k
                        == fk) by {
                        if names_contain(post, k) {
                            let a = choose|a: int| 0 <= a < post.len() && #[trigger] post[a]@ == k;
                            if a < i {
                                assert(pre[a]@ == k);
                            }
                        }
                        if names_contain(pre, k) {
                            let a = choose|a: int| 0 <= a < pre.len() && #[trigger] pre[a]@ == k;
                            assert(post[a]@ == k);
                        }
                        if k == fk {
                            assert(post[i as int]@ == k);
                        }
                    }
                    assert forall|k: Seq<char>| #[trigger] lookup(es@, k) == if names_contain(post, k) {
                        Some(filled_value(orig, k))
                    } else {
                        lookup(orig, k)
                    } by {
                        if k == fk {
                            assert(names_contain(post, k));
                        } else {
                            assert(names_contain(post, k) == names_contain(pre, k));
                        }
                    }
                    if entries_null_free(orig) {
                        assert forall|j: int| 0 <= j < es.len() implies null_free((#[trigger] es@[j]).1) by {
                            if es@[j].1 != Json::Null {
                                let j2 = choose|j2: int| 0 <= j2 < before.len() && before[j2].1 == es@[j].1;
                                assert(null_free(before[j2].1));
                            }
                        }
                    }
                }
                i = i + 1;
            }
            proof {
                assert(required_fields@.subrange(0, i as int) =~= required_fields@);
            }
            Json::Object(es)
        },
        other => other,
    }
}

/// The value that the planner gave for `k`: its last non-null entry, if any.
pub open spec fn planner_value(os: Seq<(String, Json)>, k: Seq<char>) -> Option<Json>
    decreases os.len(),
{
    if os.len() == 0 {
        None
    } else if os.last().0@ == k && !(os.last().1 is Null) {
        Some(os.last().1)
    } else {
        planner_value(os.drop_last(), k)
    }
}

/// `r` is `v` with the planner's non-null values laid over it, where both are objects.
pub open spec fn merges_to(v: Json, planner: Json, r: Json) -> bool {
    if v is Object && planner is Object {
        r is Object && forall|k: Seq<char>|
            #[trigger] lookup(r->Object_0@, k) == match planner_value(planner->Object_0@, k) {
                Some(x) => Some(x),
                None => lookup(v->Object_0@, k),
            }
    } else {
        r == v
    }
}

/// `r` is `v` with every required field present, as `ensure_required_fields_present` makes it.
pub open spec fn fills_to(v: Json, required: Seq<String>, r: Json) -> bool {
    if v is Object {
        r is Object && forall|k: Seq<char>|
            #[trigger] lookup(r->Object_0@, k) == if names_contain(required, k) {
                Some(filled_value(v->Object_0@, k))
            } else {
                lookup(v->Object_0@, k)
            }
    } else {
        r == v
    }
}

/// Lays the planner's non-null values over the resolver's object: where the
/// planner named a key with a value, that value wins.
pub fn merge_planner_args(v: Json, planner: Json) -> (r: Json)
    ensures
        merges_to(v, planner, r),
        null_free(v) && null_free(planner) ==> null_free(r),
{
    match (v, planner) {
        (Json::Object(vs), Json::Object(os)) => {
            let ghost vorig = vs@;
            let ghost oorig = os@;
            let mut out = vs;
            let mut rest = os;
            let ghost mut i: int = 0;
            while rest.len() > 0
                invariant
                    0 <= i <= oorig.len(),
                    i + rest.len() == oorig.len(),
                    rest@ == oorig.subrange(i, oorig.len() as int),
                    forall|k: Seq<char>|
                        #[trigger] lookup(out@, k) == match planner_value(oorig.subrange(0, i), k) {
                            Some(x) => Some(x),
                            None => lookup(vorig, k),
                        },
                    entries_null_free(vorig) && entries_null_free(oorig) ==> entries_null_free(out@),
                decreases rest.len(),
            {
                let (key, val) = rest.remove(0);
                let ghost kv = key@;
                let ghost e = oorig[i];
                assert(e.0@ == kv && e.1 == val);
                let ghost before = out@;
                let is_null = matches!(val, Json::Null);
                if !is_null {
                    set_key(&mut out, key, val);
                }
                proof {
                    let pre = oorig.subrange(0, i);
                    let post = oorig.subrange(0, i + 1);
                    assert(post.drop_last() =~= pre);
                    assert(post.last() == e);
                    assert forall|k: Seq<char>| #[trigger] lookup(out@, k) == match planner_value(post, k) {
                        Some(x) => Some(x),
                        None => lookup(vorig, k),
                    } by {
                        if k != kv || is_null {
                            assert(lookup(out@, k) == lookup(before, k));
                        }
                    }
                    if entries_null_free(vorig) && entries_null_free(oorig) {
                        assert(null_free(oorig[i].1));
                        assert forall|j: int| 0 <= j < out.len() implies null_free((#[trigger] out@[j]).1) by {
                            if out@[j].1 != val {
                                let j2 = choose|j2: int| 0 <= j2 < before.len() && before[j2].1 == out@[j].1;
                                assert(null_free(before[j2].1));
                            }
                        }
                    }
                    i = i + 1;
                }
                assert(rest@ =~= oorig.subrange(i, oorig.len() as int));
            }
            proof {
                assert(oorig.subrange(0, i) =~= oorig);
            }
            Json::Object(out)
        },
        (v, _) => v,
    }
}

/// `o` is `n` where `n` is an object, and an empty object otherwise.
pub open spec fn as_object(n: Json, o: Json) -> bool {
    if n is Object {
        o == n
    } else {
        o is Object && o->Object_0.len() == 0
    }
}

/// `r` is what the last stage of resolution makes of the extractor's value:
/// null-standing strings normalised, a value that is not an object replaced
/// by an empty object, the planner's values laid over it, and every
/// required field made present.
pub open spec fn resolved_from(extracted: Json, input: Json, required: Seq<String>, r: Json) -> bool {
    exists|n: Json, o: Json, m: Json|
        normalizes_to(extracted, n) && as_object(n, o) && merges_to(o, input, m) && fills_to(m, required, r)
}

/// The last stage of parameter resolution: normalise null-standing strings
/// in what the extractor produced, start from an empty object where that is
/// not an object, lay the planner's values over it, and make every required
/// field present. The result is always an object holding every required
/// field.
pub fn finalize_arguments(extracted: Json, input: Json, required_fields: &Vec<String>) -> (r: Json)
    ensures
        resolved_from(extracted, input, required_fields@, r),
        r is Object,
        forall|i: int|
            0 <= i < required_fields.len() ==> lookup(r->Object_0@, (#[trigger] required_fields@[i])@) is Some,
        !(input is Object) ==> null_free(r),
{
    let n = normalize_null_strings(extracted);
    let ghost ng = n;
    let o = match n {
        Json::Object(es) => Json::Object(es),
        _ => Json::Object(Vec::new()),
    };
    let ghost og = o;
    assert(null_free(og)) by {
        if !(ng is Object) {
            assert(og->Object_0@.len() == 0);
        }
    }
    let m = merge_planner_args(o, input);
    let ghost mg = m;
    let r = ensure_required_fields_present(m, required_fields);
    proof {
        assert(mg is Object);
        assert forall|i: int| 0 <= i < required_fields.len() implies lookup(
            r->Object_0@,
            (#[trigger] required_fields@[i])@,
        ) is Some by {
            assert(names_contain(required_fields@, required_fields@[i]@));
        }
        assert(normalizes_to(extracted, ng) && as_object(ng, og) && merges_to(og, input, mg) && fills_to(
            mg,
            required_fields@,
            r,
        ));
    }
    r
}

/// Why parameter resolution failed.
pub enum ResolveError {
    /// The extractor's reply held no JSON value.
    Unparsed,
}

/// Parameter resolution around the model's two passes: arguments that the
/// planner already gave as an object are used as they are; otherwise the
/// extractor's value (`first_pass`, `None` where its reply did not parse)
/// is taken, or the auditor's where that parsed, and finished by
/// `finalize_arguments`.
pub fn resolve_arguments(
    input: Json,
    first_pass: Option<Json>,
    audited: Option<Json>,
    required_fields: &Vec<String>,
) -> (r: Result<Json, ResolveError>)
    ensures
        input is Object ==> r == Ok::<Json, ResolveError>(input),
        !(input is Object) && first_pass is None ==> r is Err,
        !(input is Object) && first_pass is Some ==> r is Ok && resolved_from(
            if audited is Some {
                audited->Some_0
            } else {
                first_pass->Some_0
            },
            input,
            required_fields@,
            r->Ok_0,
        ) && r->Ok_0 is Object && null_free(r->Ok_0) && forall|i: int|
            0 <= i < required_fields.len() ==> lookup(
                r->Ok_0->Object_0@,
                (#[trigger] required_fields@[i])@,
            ) is Some,
{
    if matches!(input, Json::Object(_)) {
        return Ok(input);
    }
    match first_pass {
        None => Err(ResolveError::Unparsed),
        Some(first) => {
            let chosen = match audited {
                Some(a) => a,
                None => first,
            };
            Ok(finalize_arguments(chosen, input, required_fields))
        },
    }
}

/// After the last stage of resolution, the object holds every required
/// field; a field the resolver could not fill holds null.
pub proof fn lemma_required_fields_present(v: Json, required: Seq<String>, r: Json, k: Seq<char>)
    requires
        v is Object,
        fills_to(v, required, r),
        names_contain(required, k),
    ensures
        lookup(r->Object_0@, k) is Some,
        lookup(v->Object_0@, k) is None ==> lookup(r->Object_0@, k) == Some(Json::Null),
        lookup(v->Object_0@, k) == Some(Json::Null) ==> lookup(r->Object_0@, k) == Some(Json::Null),
{
}

/// Whatever the extractor produced, the resolved arguments are an object
/// holding every required field.
pub proof fn lemma_resolved_has_required(extracted: Json, input: Json, required: Seq<String>, r: Json, k: Seq<char>)
    requires
        resolved_from(extracted, input, required, r),
        names_contain(required, k),
    ensures
        r is Object,
        lookup(r->Object_0@, k) is Some,
{
    let (n, o, m) = choose|n: Json, o: Json, m: Json|
        normalizes_to(extracted, n) && as_object(n, o) && merges_to(o, input, m) && fills_to(m, required, r);
    assert(o is Object);
    assert(m is Object);
}

/// `a` and `b` are the same JSON value: same shape, same texts.
pub open spec fn same_json(a: Json, b: Json) -> bool
    decreases a,
{
    match a {
        Json::Null => b is Null,
        Json::Bool(x) => b is Bool && b->Bool_0 == x,
        Json::Number(n) => b is Number && b->Number_0@ == n@,
        Json::Str(s) => b is Str && b->Str_0@ == s@,
        Json::Array(xs) => b is Array && b->Array_0.len() == xs.len() && forall|i: int|
            0 <= i < xs.len() ==> same_json(#[trigger] xs@[i], b->Array_0@[i]),
        Json::Object(es) => b is Object && b->Object_0.len() == es.len() && forall|i: int|
            0 <= i < es.len() ==> (#[trigger] es@[i]).0@ == b->Object_0@[i].0@ && same_json(
                es@[i].1,
                b->Object_0@[i].1,
            ),
    }
}

impl Json {
    /// A copy of this value.
    pub fn deep_copy(&self) -> (r: Json)
        ensures
            same_json(*self, r),
        decreases self,
    {
        match self {
            Json::Null => Json::Null,
            Json::Bool(b) => Json::Bool(*b),
            Json::Number(n) => Json::Number(n.clone()),
            Json::Str(s) => Json::Str(s.clone()),
            Json::Array(xs) => {
                let mut out: Vec<Json> = Vec::new();
                let mut i: usize = 0;
                while i < xs.len()
                    invariant
                        i <= xs.len(),
                        out.len() == i,
                        forall|k: int| 0 <= k < i ==> same_json(#[trigger] xs@[k], out@[k]),
                        forall|k: int| 0 <= k < xs.len() ==> decreases_to!(*self => #[trigger] xs@[k]),
                    decreases xs.len() - i,
                {
                    let c = xs[i].deep_copy();
                    out.push(c);
                    i = i + 1;
                }
                Json::Array(out)
            },
            Json::Object(es) => {
                let mut out: Vec<(String, Json)> = Vec::new();
                let mut i: usize = 0;
                while i < es.len()
                    invariant
                        i <= es.len(),
                        out.len() == i,
                        forall|k: int|
                            0 <= k < i ==> (#[trigger] es@[k]).0@ == out@[k].0@ && same_json(es@[k].1, out@[k].1),
                        forall|k: int| 0 <= k < es.len() ==> decreases_to!(*self => (#[trigger] es@[k]).1),
                    decreases es.len() - i,
                {
                    let c = es[i].1.deep_copy();
                    out.push((es[i].0.clone(), c));
                    i = i + 1;
                }
                Json::Object(out)
            },
        }
    }
}

} // verus!
