//! The body codec: classifies a raw request-body string into a structured
//! representation, and substitutes per-request placeholders into it.
//!
//! Classification is a priority chain: a structured (JSON) reading wins
//! over a form-encoded one, which wins over base64 binary, which wins over
//! raw text; an empty or whitespace-only input is `Empty`.

use vstd::prelude::*;
use base64::Engine;
use crate::text::{
    contains_char, dec_digits, find_char_from, lemma_split_first_at, lemma_split_first_none,
    spec_replace, spec_split, split_char, split_first, str_replace, trim_str, u64_to_string,
};

verus! {

/// Whether a text parses as a JSON document.
/// The name stands for the success of `serde_json::from_str::<Value>`,
/// which depends on the input text alone.
pub uninterp spec fn json_wf(s: Seq<char>) -> bool;

/// Whether a text decodes as standard base64 with padding.
/// The name stands for the success of base64's `STANDARD` engine decode,
/// which depends on the input text alone.
pub uninterp spec fn b64_wf(s: Seq<char>) -> bool;

/// The bytes that standard base64 decoding yields on a decodable text.
pub uninterp spec fn b64_bytes(s: Seq<char>) -> Seq<u8>;

#[verifier::external_type_specification]
#[verifier::external_body]
pub struct ExJsonValue(serde_json::Value);

/// Relies on `serde_json::Value`'s `Clone`: needed so a body holding a
/// JSON value can be duplicated per call; nothing is assumed of the copy.
pub assume_specification[ <serde_json::Value as Clone>::clone ](v: &serde_json::Value) -> (r:
    serde_json::Value);

/// Relies on `serde_json::from_str::<Value>`: it succeeds exactly on
/// well-formed JSON text.
#[verifier::external_body]
fn json_parse(s: &str) -> (r: Option<serde_json::Value>)
    ensures
        r is Some <==> json_wf(s@),
{
    match serde_json::from_str::<serde_json::Value>(s) {
        Ok(v) => Some(v),
        Err(_) => None,
    }
}

/// Relies on `serde_json::Value`'s `Display`: it renders the value as a
/// compact JSON document. Nothing is assumed of the text: a value nested
/// past the parser's recursion limit serializes to a document that does
/// not re-parse.
#[verifier::external_body]
fn json_render(v: &serde_json::Value) -> (r: String) {
    v.to_string()
}

/// Relies on base64's `STANDARD` engine `decode` (standard alphabet, with
/// padding): success and the decoded bytes depend on the input alone.
#[verifier::external_body]
fn base64_decode(s: &str) -> (r: Option<Vec<u8>>)
    ensures
        r is Some <==> b64_wf(s@),
        r matches Some(v) ==> v@ == b64_bytes(s@),
{
    match base64::engine::general_purpose::STANDARD.decode(s) {
        Ok(v) => Some(v),
        Err(_) => None,
    }
}

/// Relies on chrono's `Utc::now` and `to_rfc3339`: the current time in
/// RFC 3339 form. Nothing is assumed of the value, which differs from
/// call to call.
#[verifier::external_body]
pub fn now_rfc3339() -> (r: String) {
    chrono::Utc::now().to_rfc3339()
}

/// Relies on uuid's `Uuid::new_v4` and its hyphenated `Display` form,
/// which is 36 characters. Nothing else is assumed of the fresh value.
#[verifier::external_body]
pub fn new_uuid_string() -> (r: String)
    ensures
        r@.len() == 36,
{
    uuid::Uuid::new_v4().to_string()
}

/// A classified request body.
#[derive(Debug, Clone)]
pub enum BodyType {
    /// A JSON document.
    Structured(serde_json::Value),
    /// `&`-separated `key=value` pairs, keys unique, first occurrence wins
    /// the position and the last occurrence the value.
    FormEncoded(Vec<(String, String)>),
    /// Bytes read from base64 text.
    Binary(Vec<u8>),
    /// Raw text, the fallback.
    Text(String),
    /// No body.
    Empty,
}

/// The parsed pairs of the `&`-separated segments, in order; segments
/// without `=` are dropped.
pub open spec fn pairs_of(segs: Seq<Seq<char>>) -> Seq<(Seq<char>, Seq<char>)>
    decreases segs.len(),
{
    if segs.len() == 0 {
        Seq::empty()
    } else {
        pairs_of(segs.drop_last()) + match split_first(segs.last(), '=') {
            Some(p) => seq![p],
            None => Seq::empty(),
        }
    }
}

/// Inserting a pair into an association list: an existing key keeps its
/// position and takes the new value; a new key goes to the end.
pub open spec fn assoc_insert(
    l: Seq<(Seq<char>, Seq<char>)>,
    k: Seq<char>,
    v: Seq<char>,
) -> Seq<(Seq<char>, Seq<char>)>
    decreases l.len(),
{
    if l.len() == 0 {
        seq![(k, v)]
    } else if l.first().0 == k {
        seq![(k, v)] + l.skip(1)
    } else {
        seq![l.first()] + assoc_insert(l.skip(1), k, v)
    }
}

/// Folding all pairs into an association list, left to right.
pub open spec fn assoc_fold(ps: Seq<(Seq<char>, Seq<char>)>) -> Seq<(Seq<char>, Seq<char>)>
    decreases ps.len(),
{
    if ps.len() == 0 {
        Seq::empty()
    } else {
        assoc_insert(assoc_fold(ps.drop_last()), ps.last().0, ps.last().1)
    }
}

/// The form content of a body text: its segments' pairs, folded.
pub open spec fn form_content(s: Seq<char>) -> Seq<(Seq<char>, Seq<char>)> {
    assoc_fold(pairs_of(spec_split(s, '&')))
}

/// The view of an association-list vector.
pub open spec fn pairs_view(ps: Seq<(String, String)>) -> Seq<(Seq<char>, Seq<char>)> {
    ps.map_values(|p: (String, String)| (p.0@, p.1@))
}

/// Whether the form-encoded reading applies to a body text: it holds an
/// `=`, does not open a JSON bracket, and yields at least one pair.
pub open spec fn form_applicable(s: Seq<char>) -> bool {
    &&& exists|i: int| 0 <= i < s.len() && s[i] == '='
    &&& !(s.len() > 0 && (s[0] == '{' || s[0] == '['))
    &&& form_content(s).len() > 0
}

pub proof fn lemma_assoc_insert_found(l: Seq<(Seq<char>, Seq<char>)>, k: Seq<char>, v: Seq<char>, i: int)
    requires
        0 <= i < l.len(),
        l[i].0 == k,
        forall|j: int| 0 <= j < i ==> (#[trigger] l[j]).0 != k,
    ensures
        assoc_insert(l, k, v) =~= l.update(i, (k, v)),
    decreases i,
{
    if i == 0 {
        assert(seq![(k, v)] + l.skip(1) =~= l.update(0, (k, v)));
    } else {
        let u = l.skip(1);
        assert(u[i - 1].0 == k);
        assert forall|j: int| 0 <= j < i - 1 implies (#[trigger] u[j]).0 != k by {
            assert(u[j] == l[j + 1]);
        }
        lemma_assoc_insert_found(u, k, v, i - 1);
        assert(seq![l.first()] + u.update(i - 1, (k, v)) =~= l.update(i, (k, v)));
    }
}

pub proof fn lemma_assoc_insert_new(l: Seq<(Seq<char>, Seq<char>)>, k: Seq<char>, v: Seq<char>)
    requires
        forall|j: int| 0 <= j < l.len() ==> (#[trigger] l[j]).0 != k,
    ensures
        assoc_insert(l, k, v) =~= l.push((k, v)),
    decreases l.len(),
{
    if l.len() == 0 {
        assert(seq![(k, v)] =~= l.push((k, v)));
    } else {
        let u = l.skip(1);
        assert forall|j: int| 0 <= j < u.len() implies (#[trigger] u[j]).0 != k by {
            assert(u[j] == l[j + 1]);
        }
        lemma_assoc_insert_new(u, k, v);
        assert(seq![l.first()] + u.push((k, v)) =~= l.push((k, v)));
    }
}

/// Parses `&`-separated `key=value` pairs out of a body text, exactly as
/// `form_content` describes; the returned keys are distinct.
pub fn parse_form_pairs(s: &str) -> (r: Vec<(String, String)>)
    ensures
        pairs_view(r@) =~= form_content(s@),
        forall|i: int, j: int|
            0 <= i < j < r@.len() ==> (#[trigger] r@[i]).0@ != (#[trigger] r@[j]).0@,
{
    let segs = split_char(s, '&');
    let ghost gsegs = segs@.map_values(|t: String| t@);
    let mut out: Vec<(String, String)> = Vec::new();
    let mut si: usize = 0;
    proof {
        assert(gsegs.take(0) =~= Seq::<Seq<char>>::empty());
        assert(pairs_view(out@) =~= assoc_fold(pairs_of(gsegs.take(0))));
    }
    while si < segs.len()
        invariant
            0 <= si <= segs@.len(),
            gsegs == segs@.map_values(|t: String| t@),
            pairs_view(out@) =~= assoc_fold(pairs_of(gsegs.take(si as int))),
            forall|i: int, j: int|
                0 <= i < j < out@.len() ==> (#[trigger] out@[i]).0@ != (#[trigger] out@[j]).0@,
        decreases segs@.len() - si,
    {
        let seg: &String = &segs[si];
        let ghost gseg = seg@;
        proof {
            assert(gsegs.take(si + 1).drop_last() =~= gsegs.take(si as int));
            assert(gsegs.take(si + 1).last() == gseg);
        }
        match find_char_from(seg.as_str(), 0, '=') {
            Some(eq_idx) => {
                let slen = seg.as_str().unicode_len();
                let key = String::from_str(seg.as_str().substring_char(0, eq_idx));
                let val = String::from_str(seg.as_str().substring_char(eq_idx + 1, slen));
                proof {
                    lemma_split_first_at(gseg, '=', eq_idx as int);
                    assert(gseg.take(eq_idx as int) =~= key@);
                    assert(gseg.skip(eq_idx + 1) =~= val@);
                    let ps_prev = pairs_of(gsegs.take(si as int));
                    let ps_cur = pairs_of(gsegs.take(si + 1));
                    assert(ps_cur =~= ps_prev + seq![(key@, val@)]);
                    assert(ps_cur.drop_last() =~= ps_prev);
                    assert(ps_cur.last() == (key@, val@));
                    assert(assoc_fold(ps_cur) == assoc_insert(assoc_fold(ps_prev), key@, val@));
                }
                let mut found: Option<usize> = None;
                let mut i: usize = 0;
                while i < out.len() && found.is_none()
                    invariant
                        0 <= i <= out@.len(),
                        found is None ==> forall|j: int|
                            0 <= j < i ==> (#[trigger] out@[j]).0@ != key@,
                        found matches Some(f) ==> 0 <= f < out@.len() && out@[f as int].0@ == key@
                            && forall|j: int| 0 <= j < f ==> (#[trigger] out@[j]).0@ != key@,
                    decreases out@.len() - i,
                {
                    if out[i].0 == key {
                        found = Some(i);
                    }
                    i = i + 1;
                }
                let ghost out_before = out@;
                match found {
                    Some(f) => {
                        out[f].1 = val;
                        proof {
                            assert forall|j: int| 0 <= j < f implies (#[trigger] pairs_view(
                                out_before,
                            )[j]).0 != key@ by {
                                assert(pairs_view(out_before)[j].0 == out_before[j].0@);
                            }
                            lemma_assoc_insert_found(pairs_view(out_before), key@, val@, f as int);
                            assert(pairs_view(out@) =~= pairs_view(out_before).update(
                                f as int,
                                (key@, val@),
                            ));
                        }
                    },
                    None => {
                        out.push((key, val));
                        proof {
                            assert forall|j: int| 0 <= j < out_before.len() implies (
                            #[trigger] pairs_view(out_before)[j]).0 != key@ by {
                                assert(pairs_view(out_before)[j].0 == out_before[j].0@);
                            }
                            lemma_assoc_insert_new(pairs_view(out_before), key@, val@);
                            assert(pairs_view(out@) =~= pairs_view(out_before).push((key@, val@)));
                        }
                    },
                }
            },
            None => {
                proof {
                    lemma_split_first_none(gseg, '=');
                    assert(pairs_of(gsegs.take(si + 1)) =~= pairs_of(gsegs.take(si as int)));
                }
            },
        }
        si = si + 1;
    }
    proof {
        assert(gsegs.take(segs@.len() as int) =~= gsegs);
    }
    out
}

/// Classifies a raw body string, following the priority chain: empty or
/// whitespace-only is `Empty`; else JSON text is `Structured`; else a
/// text with `=` that does not open a JSON bracket and yields at least
/// one `key=value` pair is `FormEncoded`; else base64 text is `Binary`;
/// else `Text` holds the input unchanged. It never fails.
/// What classification yields for a body text: the priority chain of
/// `parse_body`, clause by clause.
pub open spec fn classified(s: Seq<char>, r: BodyType) -> bool {
    &&& (r is Empty <==> crate::text::spec_trim(s).len() == 0)
    &&& (!(r is Empty) ==> (r is Structured <==> json_wf(s)))
    &&& (!(r is Empty) && !json_wf(s) ==> (r is FormEncoded <==> form_applicable(s)))
    &&& (!(r is Empty) && !json_wf(s) && !form_applicable(s) ==> (r is Binary <==> b64_wf(s)))
    &&& (r matches BodyType::FormEncoded(ps) ==> pairs_view(ps@) == form_content(s))
    &&& (r matches BodyType::Binary(b) ==> b@ == b64_bytes(s))
    &&& (r matches BodyType::Text(t) ==> t@ == s)
}

pub fn parse_body(body_str: &str) -> (r: BodyType)
    ensures
        classified(body_str@, r),
{
    let trimmed = trim_str(body_str);
    if trimmed.as_str().unicode_len() == 0 {
        return BodyType::Empty;
    }
    if let Some(v) = json_parse(body_str) {
        return BodyType::Structured(v);
    }
    let len = body_str.unicode_len();
    let opens_bracket = len > 0 && {
        let c0 = body_str.get_char(0);
        c0 == '{' || c0 == '['
    };
    if contains_char(body_str, '=') && !opens_bracket {
        let pairs = parse_form_pairs(body_str);
        if pairs.len() > 0 {
            return BodyType::FormEncoded(pairs);
        }
    }
    if let Some(bytes) = base64_decode(body_str) {
        return BodyType::Binary(bytes);
    }
    BodyType::Text(String::from_str(body_str))
}

/// The quoted form of a substituted value inside a JSON document.
pub open spec fn quoted(s: Seq<char>) -> Seq<char> {
    seq!['"'] + s + seq!['"']
}

/// A text body after placeholder substitution: `{{userId}}` becomes the
/// decimal user id, `{{timestamp}}` the timestamp text, `{{uuid}}` the
/// uuid text, in that order.
pub open spec fn render_text(t: Seq<char>, uid: nat, ts: Seq<char>, uu: Seq<char>) -> Seq<char> {
    spec_replace(
        spec_replace(spec_replace(t, "{{userId}}"@, dec_digits(uid)), "{{timestamp}}"@, ts),
        "{{uuid}}"@,
        uu,
    )
}

/// A serialized JSON document after placeholder substitution: a quoted
/// user-id placeholder becomes a bare numeric literal, a bare one the
/// same number, and timestamp and uuid become quoted string literals.
pub open spec fn render_json_text(s: Seq<char>, uid: nat, ts: Seq<char>, uu: Seq<char>) -> Seq<
    char,
> {
    spec_replace(
        spec_replace(
            spec_replace(
                spec_replace(s, "\"{{userId}}\""@, dec_digits(uid)),
                "{{userId}}"@,
                dec_digits(uid),
            ),
            "{{timestamp}}"@,
            quoted(ts),
        ),
        "{{uuid}}"@,
        quoted(uu),
    )
}

fn quote_str(s: &str) -> (r: String)
    ensures
        r@ == quoted(s@),
{
    let mut r = String::from_str("\"");
    r.append(s);
    r.append("\"");
    proof {
        reveal_strlit("\"");
        assert(r@ =~= quoted(s@));
    }
    r
}

/// Substitutes the placeholders into a raw text body, exactly as
/// `render_text` describes.
pub fn render_text_body(t: &str, user_id: usize, ts: &str, uu: &str) -> (r: String)
    ensures
        r@ == render_text(t@, user_id as nat, ts@, uu@),
{
    let uid_str = u64_to_string(user_id as u64);
    let s1 = str_replace(t, "{{userId}}", uid_str.as_str());
    let s2 = str_replace(s1.as_str(), "{{timestamp}}", ts);
    str_replace(s2.as_str(), "{{uuid}}", uu)
}

/// Substitutes the placeholders into a serialized JSON document, exactly
/// as `render_json_text` describes.
pub fn render_structured_text(s: &str, user_id: usize, ts: &str, uu: &str) -> (r: String)
    ensures
        r@ == render_json_text(s@, user_id as nat, ts@, uu@),
{
    let uid_str = u64_to_string(user_id as u64);
    let s1 = str_replace(s, "\"{{userId}}\"", uid_str.as_str());
    let s2 = str_replace(s1.as_str(), "{{userId}}", uid_str.as_str());
    let qts = quote_str(ts);
    let s3 = str_replace(s2.as_str(), "{{timestamp}}", qts.as_str());
    let quu = quote_str(uu);
    str_replace(s3.as_str(), "{{uuid}}", quu.as_str())
}

/// What dynamic rendering yields for each body kind, given the timestamp
/// and uuid texts of this call. Text bodies and form values substitute
/// all three placeholders; a structured body is re-rendered through its
/// serialized form and degrades to `Text` if the substituted document no
/// longer parses; rendering never fails.
pub open spec fn rendered_from(
    body: BodyType,
    r: BodyType,
    uid: nat,
    ts: Seq<char>,
    uu: Seq<char>,
) -> bool {
    match body {
        BodyType::Text(t) => r matches BodyType::Text(rt) && rt@ == render_text(t@, uid, ts, uu),
        BodyType::FormEncoded(ps) => r matches BodyType::FormEncoded(rs) && rs@.len() == ps@.len()
            && forall|i: int|
            0 <= i < ps@.len() ==> (#[trigger] rs@[i]).0@ == ps@[i].0@ && rs@[i].1@ == render_text(
                ps@[i].1@,
                uid,
                ts,
                uu,
            ),
        BodyType::Binary(b) => r matches BodyType::Binary(rb) && rb@ == b@,
        BodyType::Empty => r is Empty,
        BodyType::Structured(_) => r is Structured || (r matches BodyType::Text(t)
            && !json_wf(t@) && exists|s0: Seq<char>| t@ == render_json_text(s0, uid, ts, uu)),
    }
}

/// Substitutes the per-request placeholders into a body, for the given
/// timestamp and uuid texts; always returns a payload (`rendered_from`
/// pins each kind).
pub fn prepare_dynamic_body(body: &BodyType, user_id: usize, timestamp: &str, uuid_text: &str) -> (r:
    BodyType)
    ensures
        rendered_from(*body, r, user_id as nat, timestamp@, uuid_text@),
{
    match body {
        BodyType::Text(t) => BodyType::Text(
            render_text_body(t.as_str(), user_id, timestamp, uuid_text),
        ),
        BodyType::FormEncoded(ps) => {
            let mut out: Vec<(String, String)> = Vec::new();
            let mut i: usize = 0;
            while i < ps.len()
                invariant
                    0 <= i <= ps@.len(),
                    out@.len() == i,
                    forall|j: int|
                        0 <= j < i ==> (#[trigger] out@[j]).0@ == ps@[j].0@ && out@[j].1@
                            == render_text(
                            ps@[j].1@,
                            user_id as nat,
                            timestamp@,
                            uuid_text@,
                        ),
                decreases ps@.len() - i,
            {
                let key = ps[i].0.clone();
                let value = render_text_body(ps[i].1.as_str(), user_id, timestamp, uuid_text);
                out.push((key, value));
                i = i + 1;
            }
            BodyType::FormEncoded(out)
        },
        BodyType::Binary(b) => {
            let copy = b.clone();
            proof {
                assert(copy@ =~= b@);
            }
            BodyType::Binary(copy)
        },
        BodyType::Empty => BodyType::Empty,
        BodyType::Structured(v) => {
            let s = json_render(v);
            let replaced = render_structured_text(s.as_str(), user_id, timestamp, uuid_text);
            match json_parse(replaced.as_str()) {
                Some(v2) => BodyType::Structured(v2),
                None => {
                    proof {
                        assert(replaced@ == render_json_text(
                            s@,
                            user_id as nat,
                            timestamp@,
                            uuid_text@,
                        ));
                    }
                    BodyType::Text(replaced)
                },
            }
        },
    }
}

/// Substitutes the placeholders with a fresh timestamp and uuid. The two
/// are drawn from the clock and the random generator, so the contract
/// holds for whatever texts this call produced.
pub fn render_dynamic(body: &BodyType, user_id: usize) -> (r: BodyType)
    ensures
        exists|ts: Seq<char>, uu: Seq<char>| rendered_from(*body, r, user_id as nat, ts, uu),
{
    let ts = now_rfc3339();
    let uu = new_uuid_string();
    let r = prepare_dynamic_body(body, user_id, ts.as_str(), uu.as_str());
    proof {
        assert(rendered_from(*body, r, user_id as nat, ts@, uu@));
    }
    r
}

} // verus!
