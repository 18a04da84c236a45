//! The query responder's pure logic: picking the primary pod out of a
//! structured query result and rendering its texts as one reply line.
//! The result arrives as a JSON-like value of the library's own; the
//! enclosing loop converts the wire format into it.
use vstd::prelude::*;

use crate::strutil::push_char;
use crate::strutil::str_eq;

verus! {

/// A JSON-like value. Numbers carry no payload: the logic never reads
/// them, only their presence.
pub enum JsonVal {
    Null,
    Bool(bool),
    Num,
    Str(String),
    Arr(Vec<JsonVal>),
    Obj(Vec<(String, JsonVal)>),
}

/// The first value stored under `key`, scanning the entries in order;
/// `None` when the value is not an object or has no such key.
pub open spec fn entries_get(
    entries: Seq<(String, JsonVal)>,
    key: Seq<char>,
) -> Option<JsonVal>
    decreases entries.len(),
{
    if entries.len() == 0 {
        None
    } else if entries[0].0@ == key {
        Some(entries[0].1)
    } else {
        entries_get(entries.drop_first(), key)
    }
}

/// Lookup of `key` in a JSON value: only objects hold anything.
pub open spec fn obj_get(v: JsonVal, key: Seq<char>) -> Option<JsonVal> {
    match v {
        JsonVal::Obj(entries) => entries_get(entries@, key),
        _ => None,
    }
}

/// The pod array of a query result: the value under `queryresult`, then
/// `pods`, when that value is an array.
pub open spec fn pods_of(v: JsonVal) -> Option<Seq<JsonVal>> {
    match obj_get(v, "queryresult"@) {
        Some(qr) => match obj_get(qr, "pods"@) {
            Some(JsonVal::Arr(pods)) => Some(pods@),
            _ => None,
        },
        None => None,
    }
}

/// Does the misspelling hint exist: the value under `queryresults`, then
/// `didyoumeans`?
pub open spec fn has_didyoumean(v: JsonVal) -> bool {
    match obj_get(v, "queryresults"@) {
        Some(qr) => obj_get(qr, "didyoumeans"@) is Some,
        None => false,
    }
}

/// Is the pod marked as the primary one?
pub open spec fn is_primary(pod: JsonVal) -> bool {
    obj_get(pod, "primary"@) matches Some(JsonVal::Bool(true))
}

/// The index of the first primary pod, or `-1`.
pub open spec fn primary_index(pods: Seq<JsonVal>) -> int
    decreases pods.len(),
{
    if pods.len() == 0 {
        -1
    } else if is_primary(pods[0]) {
        0
    } else {
        let r = primary_index(pods.drop_first());
        if r < 0 {
            -1
        } else {
            r + 1
        }
    }
}

pub proof fn lemma_primary_index(pods: Seq<JsonVal>)
    ensures
        primary_index(pods) == -1 || (0 <= primary_index(pods) < pods.len()),
        primary_index(pods) == -1 ==> forall|i: int|
            0 <= i < pods.len() ==> !is_primary(#[trigger] pods[i]),
        primary_index(pods) >= 0 ==> is_primary(pods[primary_index(pods)]),
        primary_index(pods) >= 0 ==> forall|i: int|
            0 <= i < primary_index(pods) ==> !is_primary(#[trigger] pods[i]),
    decreases pods.len(),
{
    if pods.len() > 0 && !is_primary(pods[0]) {
        lemma_primary_index(pods.drop_first());
        assert(forall|i: int|
            1 <= i < pods.len() ==> #[trigger] pods[i] == pods.drop_first()[i - 1]);
        if primary_index(pods) >= 0 {
            assert(pods[primary_index(pods)] == pods.drop_first()[primary_index(
                pods.drop_first(),
            )]);
        }
    }
}

/// The value's `title` entry, when it is a string.
pub open spec fn title_text(v: JsonVal) -> Seq<Seq<char>> {
    match obj_get(v, "title"@) {
        Some(JsonVal::Str(s)) => seq![s@],
        _ => Seq::<Seq<char>>::empty(),
    }
}

/// The value's `plaintext` entry, when it is a string.
pub open spec fn plain_text(v: JsonVal) -> Seq<Seq<char>> {
    match obj_get(v, "plaintext"@) {
        Some(JsonVal::Str(s)) => seq![s@],
        _ => Seq::<Seq<char>>::empty(),
    }
}

/// The texts of one subpod: its title and its plaintext, each when it is
/// a string.
pub open spec fn subpod_strings(sp: JsonVal) -> Seq<Seq<char>> {
    title_text(sp) + plain_text(sp)
}

/// The texts of a whole subpod array, in order.
pub open spec fn subpods_strings(sps: Seq<JsonVal>) -> Seq<Seq<char>>
    decreases sps.len(),
{
    if sps.len() == 0 {
        Seq::<Seq<char>>::empty()
    } else {
        subpod_strings(sps[0]) + subpods_strings(sps.drop_first())
    }
}

/// Everything the primary pod offers: its own title when it is a string,
/// then each subpod's title and plaintext.
pub open spec fn pod_strings(pod: JsonVal) -> Seq<Seq<char>> {
    title_text(pod) + (match obj_get(pod, "subpods"@) {
        Some(JsonVal::Arr(sps)) => subpods_strings(sps@),
        _ => Seq::<Seq<char>>::empty(),
    })
}

/// The non-empty texts, order kept.
pub open spec fn nonempty(strings: Seq<Seq<char>>) -> Seq<Seq<char>>
    decreases strings.len(),
{
    if strings.len() == 0 {
        Seq::<Seq<char>>::empty()
    } else if strings[0].len() > 0 {
        seq![strings[0]] + nonempty(strings.drop_first())
    } else {
        nonempty(strings.drop_first())
    }
}

/// `s` with every line break replaced by a space.
pub open spec fn replace_nl(s: Seq<char>) -> Seq<char> {
    s.map_values(
        |c: char|
            if c == '\n' {
                ' '
            } else {
                c
            },
    )
}

/// The texts after the first two, each behind a ` | ` separator.
pub open spec fn render_tail(strings: Seq<Seq<char>>) -> Seq<char>
    decreases strings.len(),
{
    if strings.len() == 0 {
        Seq::<char>::empty()
    } else {
        " | "@ + replace_nl(strings[0]) + render_tail(strings.drop_first())
    }
}

/// The reply: the first text, a `: ` before the second, a ` | ` before
/// each further one, line breaks flattened to spaces.
pub open spec fn render(strings: Seq<Seq<char>>) -> Seq<char> {
    if strings.len() == 0 {
        Seq::<char>::empty()
    } else if strings.len() == 1 {
        replace_nl(strings[0])
    } else {
        replace_nl(strings[0]) + ": "@ + replace_nl(strings[1]) + render_tail(strings.skip(2))
    }
}

/// What the query produced.
pub enum WolframOutcome {
    /// A primary pod was found: the rendered reply text.
    Primary(String),
    /// The result holds pods, none of them primary.
    NoPrimary,
    /// No pods, but a misspelling hint.
    DidYouMean,
    /// Nothing usable at all.
    NoResult,
}

/// Executable lookup of `key` in a JSON value.
pub fn get_key<'a>(v: &'a JsonVal, key: &str) -> (r: Option<&'a JsonVal>)
    ensures
        match r {
            Some(x) => obj_get(*v, key@) == Some(*x),
            None => obj_get(*v, key@) is None,
        },
{
    match v {
        JsonVal::Obj(entries) => {
            let n = entries.len();
            proof {
                assert(entries@.skip(0) =~= entries@);
            }
            let mut i: usize = 0;
            while i < n
                invariant
                    i <= n,
                    n == entries@.len(),
                    obj_get(*v, key@) == entries_get(entries@, key@),
                    entries_get(entries@, key@) == entries_get(
                        entries@.skip(i as int),
                        key@,
                    ),
                decreases n - i,
            {
                proof {
                    assert(entries@.skip(i as int).drop_first() =~= entries@.skip(i as int + 1));
                    assert(entries@.skip(i as int)[0] == entries@[i as int]);
                }
                if str_eq(entries[i].0.as_str(), key) {
                    proof {
                        assert(entries@[i as int].0@ == key@);
                        assert(entries_get(entries@.skip(i as int), key@) == Some(
                            entries@[i as int].1,
                        ));
                        assert(obj_get(*v, key@) == Some(entries@[i as int].1));
                    }
                    return Some(&entries[i].1);
                }
                i += 1;
            }
            proof {
                assert(entries@.skip(n as int) =~= Seq::<(String, JsonVal)>::empty());
            }
            None
        },
        _ => None,
    }
}

/// Executable line-break flattening.
fn flatten_newlines(s: &str) -> (r: String)
    ensures
        r@ == replace_nl(s@),
{
    let len = s.unicode_len();
    let mut out = String::new();
    let mut i: usize = 0;
    while i < len
        invariant
            i <= len,
            len == s@.len(),
            out@.len() == i,
            forall|j: int| 0 <= j < i ==> out@[j] == replace_nl(s@)[j],
        decreases len - i,
    {
        let c = s.get_char(i);
        if c == '\n' {
            push_char(&mut out, ' ');
        } else {
            push_char(&mut out, c);
        }
        i += 1;
    }
    proof {
        assert(out@ =~= replace_nl(s@));
    }
    out
}

/// Collect the texts of the primary pod, in order.
fn collect_pod_strings(pod: &JsonVal) -> (r: Vec<String>)
    ensures
        r@.map_values(|s: String| s@) == pod_strings(*pod),
{
    let mut out: Vec<String> = Vec::new();
    match get_key(pod, "title") {
        Some(JsonVal::Str(s)) => {
            out.push(s.clone());
        },
        _ => {},
    }
    proof {
        assert(out@.map_values(|s: String| s@) =~~= title_text(*pod));
    }
    match get_key(pod, "subpods") {
        Some(JsonVal::Arr(sps)) => {
            let n = sps.len();
            let mut i: usize = 0;
            while i < n
                invariant
                    i <= n,
                    n == sps@.len(),
                    out@.map_values(|s: String| s@) =~~= title_text(*pod) + subpods_head(
                        sps@,
                        i as int,
                    ),
                decreases n - i,
            {
                proof {
                    lemma_subpods_head_step(sps@, i as int);
                }
                let ghost pre = out@.map_values(|s: String| s@);
                let sp = &sps[i];
                match get_key(sp, "title") {
                    Some(JsonVal::Str(s)) => {
                        out.push(s.clone());
                    },
                    _ => {},
                }
                proof {
                    assert(out@.map_values(|s: String| s@) =~~= pre + title_text(sps@[i as int]));
                }
                let ghost mid = out@.map_values(|s: String| s@);
                match get_key(sp, "plaintext") {
                    Some(JsonVal::Str(s)) => {
                        out.push(s.clone());
                    },
                    _ => {},
                }
                proof {
                    assert(out@.map_values(|s: String| s@) =~~= mid + plain_text(sps@[i as int]));
                    assert(out@.map_values(|s: String| s@) =~~= title_text(*pod) + subpods_head(
                        sps@,
                        i as int + 1,
                    ));
                }
                i += 1;
            }
            proof {
                lemma_subpods_head_all(sps@);
            }
        },
        _ => {},
    }
    proof {
        assert(out@.map_values(|s: String| s@) =~~= pod_strings(*pod));
    }
    out
}

/// The texts of the first `i` subpods.
pub open spec fn subpods_head(sps: Seq<JsonVal>, i: int) -> Seq<Seq<char>>
    decreases i,
{
    if i <= 0 {
        Seq::<Seq<char>>::empty()
    } else {
        subpods_head(sps, i - 1) + subpod_strings(sps[i - 1])
    }
}

pub proof fn lemma_subpods_head_step(sps: Seq<JsonVal>, i: int)
    requires
        0 <= i,
    ensures
        subpods_head(sps, i + 1) == subpods_head(sps, i) + subpod_strings(sps[i]),
{
}

pub proof fn lemma_subpods_head_all(sps: Seq<JsonVal>)
    ensures
        subpods_head(sps, sps.len() as int) =~~= subpods_strings(sps),
    decreases sps.len(),
{
    if sps.len() > 0 {
        lemma_subpods_head_all(sps.drop_first());
        lemma_subpods_head_shift(sps, sps.len() as int);
    }
}

/// Heads of a sequence and of its tail line up.
pub proof fn lemma_subpods_head_shift(sps: Seq<JsonVal>, i: int)
    requires
        1 <= i <= sps.len(),
    ensures
        subpods_head(sps, i) =~~= subpod_strings(sps[0]) + subpods_head(
            sps.drop_first(),
            i - 1,
        ),
    decreases i,
{
    if i == 1 {
        assert(subpods_head(sps, 0) =~~= Seq::<Seq<char>>::empty());
        assert(subpods_head(sps.drop_first(), 0) =~~= Seq::<Seq<char>>::empty());
    } else {
        lemma_subpods_head_shift(sps, i - 1);
        assert(sps.drop_first()[i - 2] == sps[i - 1]);
    }
}

/// Keep the non-empty texts.
fn filter_nonempty(strings: Vec<String>) -> (r: Vec<String>)
    ensures
        r@.map_values(|s: String| s@) == nonempty(strings@.map_values(|s: String| s@)),
{
    let n = strings.len();
    let mut out: Vec<String> = Vec::new();
    proof {
        assert(strings@.map_values(|s: String| s@).skip(0) =~= strings@.map_values(
            |s: String| s@,
        ));
        assert(out@.map_values(|s: String| s@) + nonempty(
            strings@.map_values(|s: String| s@),
        ) =~~= nonempty(strings@.map_values(|s: String| s@)));
    }
    let mut i: usize = 0;
    while i < n
        invariant
            i <= n,
            n == strings@.len(),
            nonempty(strings@.map_values(|s: String| s@)) =~~= out@.map_values(|s: String| s@)
                + nonempty(strings@.map_values(|s: String| s@).skip(i as int)),
        decreases n - i,
    {
        let ghost views = strings@.map_values(|s: String| s@);
        let ghost pre = out@.map_values(|s: String| s@);
        proof {
            assert(views.skip(i as int).drop_first() =~= views.skip(i as int + 1));
            assert(views.skip(i as int)[0] == views[i as int]);
        }
        let s = &strings[i];
        if s.as_str().unicode_len() > 0 {
            out.push(s.clone());
            proof {
                assert(pre + (seq![views[i as int]] + nonempty(views.skip(i as int + 1)))
                    =~~= out@.map_values(|s2: String| s2@) + nonempty(
                    views.skip(i as int + 1),
                ));
            }
        }
        i += 1;
    }
    proof {
        let views = strings@.map_values(|s: String| s@);
        assert(views.skip(n as int) =~= Seq::<Seq<char>>::empty());
        assert(out@.map_values(|s: String| s@) + Seq::<Seq<char>>::empty() =~~= out@.map_values(
            |s: String| s@,
        ));
    }
    out
}

/// Render the kept texts with their separators.
fn render_strings(strings: &Vec<String>) -> (r: String)
    ensures
        r@ == render(strings@.map_values(|s: String| s@)),
{
    let ghost views = strings@.map_values(|s: String| s@);
    let n = strings.len();
    if n == 0 {
        let r = String::new();
        proof {
            assert(r@ =~= render(views));
        }
        return r;
    }
    let mut out = flatten_newlines(strings[0].as_str());
    if n == 1 {
        return out;
    }
    out.append(": ");
    let second = flatten_newlines(strings[1].as_str());
    out.append(second.as_str());
    let mut i: usize = 2;
    proof {
        assert(out@ =~= replace_nl(views[0]) + ": "@ + replace_nl(views[1]) + render_tail(
            views.skip(2).take(0),
        ));
    }
    while i < n
        invariant
            2 <= i <= n,
            n == strings@.len(),
            n >= 2,
            out@ == replace_nl(strings@.map_values(|s: String| s@)[0]) + ": "@ + replace_nl(
                strings@.map_values(|s: String| s@)[1],
            ) + render_tail(
                strings@.map_values(|s: String| s@).skip(2).take(i as int - 2),
            ),
        decreases n - i,
    {
        let ghost vs = strings@.map_values(|s: String| s@);
        out.append(" | ");
        let piece = flatten_newlines(strings[i].as_str());
        out.append(piece.as_str());
        proof {
            lemma_render_tail_push(vs.skip(2), i as int - 2);
            assert(vs.skip(2).take(i as int - 1) =~~= vs.skip(2).take(i as int - 2).push(
                vs[i as int],
            ));
        }
        i += 1;
    }
    proof {
        assert(strings@.map_values(|s: String| s@).skip(2).take(n as int - 2)
            =~~= strings@.map_values(|s: String| s@).skip(2));
    }
    out
}

/// Rendering one more text appends its separator and flattened body.
pub proof fn lemma_render_tail_push(strings: Seq<Seq<char>>, k: int)
    requires
        0 <= k < strings.len(),
    ensures
        render_tail(strings.take(k).push(strings[k])) =~= render_tail(strings.take(k)) + " | "@
            + replace_nl(strings[k]),
    decreases k,
{
    if k == 0 {
        assert(strings.take(0).push(strings[0]) =~~= seq![strings[0]]);
        assert(seq![strings[0]].drop_first() =~~= Seq::<Seq<char>>::empty());
        assert(seq![strings[0]][0] == strings[0]);
        assert(render_tail(Seq::<Seq<char>>::empty()) =~= Seq::<char>::empty());
        assert(render_tail(strings.take(0)) =~= Seq::<char>::empty());
        assert(render_tail(seq![strings[0]]) =~= " | "@ + replace_nl(strings[0]));
    } else {
        assert(strings.take(k).push(strings[k]).drop_first() =~~= strings.drop_first().take(
            k - 1,
        ).push(strings.drop_first()[k - 1]));
        assert(strings.take(k).drop_first() =~~= strings.drop_first().take(k - 1));
        lemma_render_tail_push(strings.drop_first(), k - 1);
        assert(strings.drop_first()[k - 1] == strings[k]);
        assert(strings.take(k)[0] == strings[0]);
        assert(strings.take(k).push(strings[k])[0] == strings[0]);
    }
}

/// React to one query result: find the primary pod and render its texts,
/// or say which fallback applies.
pub fn wolfram_summary(json: &JsonVal) -> (r: WolframOutcome)
    ensures
        match r {
            WolframOutcome::Primary(s) => pods_of(*json) matches Some(pods) && primary_index(
                pods,
            ) >= 0 && s@ == render(nonempty(pod_strings(pods[primary_index(pods)]))),
            WolframOutcome::NoPrimary => pods_of(*json) matches Some(pods) && primary_index(
                pods,
            ) == -1,
            WolframOutcome::DidYouMean => pods_of(*json) is None && has_didyoumean(*json),
            WolframOutcome::NoResult => pods_of(*json) is None && !has_didyoumean(*json),
        },
{
    let pods_opt = match get_key(json, "queryresult") {
        Some(qr) => get_key(qr, "pods"),
        None => None,
    };
    match pods_opt {
        Some(JsonVal::Arr(pods)) => {
            proof {
                lemma_primary_index(pods@);
            }
            let n = pods.len();
            let mut i: usize = 0;
            while i < n
                invariant
                    i <= n,
                    n == pods@.len(),
                    pods_of(*json) == Some(pods@),
                    forall|j: int| 0 <= j < i ==> !is_primary(#[trigger] pods@[j]),
                    primary_index(pods@) == -1 ==> forall|j: int|
                        0 <= j < pods@.len() ==> !is_primary(#[trigger] pods@[j]),
                    primary_index(pods@) == -1 || (0 <= primary_index(pods@) < pods@.len()
                        && is_primary(pods@[primary_index(pods@)]) && forall|j: int|
                        0 <= j < primary_index(pods@) ==> !is_primary(#[trigger] pods@[j])),
                decreases n - i,
            {
                let prim = match get_key(&pods[i], "primary") {
                    Some(JsonVal::Bool(true)) => true,
                    _ => false,
                };
                if prim {
                    proof {
                        let pi = primary_index(pods@);
                        assert(is_primary(pods@[i as int]));
                        if pi == -1 {
                            assert(!is_primary(pods@[i as int]));
                        } else if pi < i {
                            assert(!is_primary(pods@[pi]));
                        } else if pi > i {
                            assert(!is_primary(pods@[i as int]));
                        }
                        assert(pi == i);
                    }
                    let strings = collect_pod_strings(&pods[i]);
                    let kept = filter_nonempty(strings);
                    let rendered = render_strings(&kept);
                    return WolframOutcome::Primary(rendered);
                }
                i += 1;
            }
            WolframOutcome::NoPrimary
        },
        _ => {
            let dym = match get_key(json, "queryresults") {
                Some(qr) => match get_key(qr, "didyoumeans") {
                    Some(_) => true,
                    None => false,
                },
                None => false,
            };
            if dym {
                WolframOutcome::DidYouMean
            } else {
                WolframOutcome::NoResult
            }
        },
    }
}

} // verus!
