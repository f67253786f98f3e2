use vstd::prelude::*;

verus! {

/// `n` names the `Host` header, in any letter case.
pub open spec fn is_host_name(n: Seq<char>) -> bool {
    &&& n.len() == 4
    &&& (n[0] == 'h' || n[0] == 'H')
    &&& (n[1] == 'o' || n[1] == 'O')
    &&& (n[2] == 's' || n[2] == 'S')
    &&& (n[3] == 't' || n[3] == 'T')
}

/// The text sent for a header value: the value itself, or empty when it is
/// not representable as text.
pub open spec fn value_text(v: Option<String>) -> Seq<char> {
    match v {
        Some(s) => s@,
        None => Seq::empty(),
    }
}

/// The headers sent upstream for inbound `hs`: all but `Host`, in order.
pub open spec fn forwarded(hs: Seq<(String, Option<String>)>) -> Seq<(Seq<char>, Seq<char>)>
    decreases hs.len(),
{
    if hs.len() == 0 {
        Seq::empty()
    } else {
        let rest = forwarded(hs.drop_last());
        let h = hs.last();
        if is_host_name(h.0@) {
            rest
        } else {
            rest.push((h.0@, value_text(h.1)))
        }
    }
}

/// Whether `name` is the hop-specific `Host` header.
pub fn is_host(name: &str) -> (r: bool)
    ensures
        r == is_host_name(name@),
{
    if name.unicode_len() != 4 {
        return false;
    }
    let a = name.get_char(0);
    let b = name.get_char(1);
    let c = name.get_char(2);
    let d = name.get_char(3);
    (a == 'h' || a == 'H') && (b == 'o' || b == 'O') && (c == 's' || c == 'S') && (d == 't' || d
        == 'T')
}

/// Copies inbound headers for the outbound request: every one but `Host`,
/// values that are not text replaced by the empty value.
pub fn forward_headers(headers: &Vec<(String, Option<String>)>) -> (r: Vec<(String, String)>)
    ensures
        r.deep_view() == forwarded(headers@),
{
    let mut r: Vec<(String, String)> = Vec::new();
    let n = headers.len();
    let mut i: usize = 0;
    while i < n
        invariant
            n == headers@.len(),
            i <= n,
            r.deep_view() == forwarded(headers@.subrange(0, i as int)),
        decreases n - i,
    {
        let ghost before = r.deep_view();
        let h = &headers[i];
        assert(headers@.subrange(0, i + 1).drop_last() =~= headers@.subrange(0, i as int));
        if !is_host(h.0.as_str()) {
            let value = match &h.1 {
                Some(v) => v.clone(),
                None => String::new(),
            };
            r.push((h.0.clone(), value));
            assert(r.deep_view() =~= before.push((h.0@, value_text(h.1))));
        }
        i = i + 1;
    }
    assert(headers@.subrange(0, n as int) =~= headers@);
    r
}

/// No header sent upstream is `Host`, and every other inbound header is sent
/// with its value unchanged (the empty value where it was not text).
pub proof fn lemma_forwarded_headers(hs: Seq<(String, Option<String>)>)
    ensures
        forall|k: int| 0 <= k < forwarded(hs).len() ==> !is_host_name(#[trigger] forwarded(hs)[k].0),
        forall|j: int|
            0 <= j < hs.len() && !is_host_name(#[trigger] hs[j].0@) ==> forwarded(hs).contains(
                (hs[j].0@, value_text(hs[j].1)),
            ),
    decreases hs.len(),
{
    if hs.len() > 0 {
        let rest = hs.drop_last();
        lemma_forwarded_headers(rest);
        assert forall|j: int| 0 <= j < hs.len() && !is_host_name(#[trigger] hs[j].0@) implies forwarded(hs).contains(
            (hs[j].0@, value_text(hs[j].1)),
        ) by {
            if j < rest.len() {
                assert(rest[j] == hs[j]);
                let k = choose|k: int| 0 <= k < forwarded(rest).len() && forwarded(rest)[k] == (rest[j].0@, value_text(rest[j].1));
                assert(forwarded(hs)[k] == forwarded(rest)[k]);
            } else {
                assert(forwarded(hs).last() == (hs[j].0@, value_text(hs[j].1)));
            }
        }
    }
}

} // verus!
