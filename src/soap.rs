use vstd::prelude::*;
use crate::text::{replace_all, replace_str};

verus! {

/// The namespace used when the caller gives none.
pub open spec fn default_namespace() -> Seq<char> {
    "http://schemas.microsoft.com/sharepoint/soap/"@
}

/// The envelope that wraps `body` as a call of `method` in namespace `ns`
/// (where "webpartpages/" has already been normalised).
pub open spec fn envelope(method: Seq<char>, ns: Seq<char>, body: Seq<char>) -> Seq<char> {
    "<soap:Envelope xmlns:xsi=\"http://www.w3.org/2001/XMLSchema-instance\" xmlns:xsd=\"http://www.w3.org/2001/XMLSchema\" xmlns:soap=\"http://schemas.xmlsoap.org/soap/envelope/\">\n            <soap:Body>\n                <"@
        + method + " xmlns=\""@ + ns + "\">\n                    "@ + body
        + "\n                </"@ + method
        + ">\n            </soap:Body>\n        </soap:Envelope>"@
}

/// Wraps `body_content` in the protocol envelope for the call `method_name`.
/// The namespace defaults to the list service namespace; any "webpartpages/"
/// in it becomes "webpartpages".
pub fn build_body_for_soap(method_name: &str, body_content: &str, xmlns: Option<&str>) -> (r: String)
    ensures
        r@ == envelope(
            method_name@,
            replace_all(
                match xmlns {
                    Some(x) => x@,
                    None => default_namespace(),
                },
                "webpartpages/"@,
                "webpartpages"@,
            ),
            body_content@,
        ),
{
    let ns_in: &str = match xmlns {
        Some(x) => x,
        None => "http://schemas.microsoft.com/sharepoint/soap/",
    };
    proof {
        reveal_strlit("http://schemas.microsoft.com/sharepoint/soap/");
    }
    let ns = replace_str(ns_in, "webpartpages/", "webpartpages");
    let mut r = String::from_str("<soap:Envelope xmlns:xsi=\"http://www.w3.org/2001/XMLSchema-instance\" xmlns:xsd=\"http://www.w3.org/2001/XMLSchema\" xmlns:soap=\"http://schemas.xmlsoap.org/soap/envelope/\">\n            <soap:Body>\n                <");
    r.append(method_name);
    r.append(" xmlns=\"");
    r.append(ns.as_str());
    r.append("\">\n                    ");
    r.append(body_content);
    r.append("\n                </");
    r.append(method_name);
    r.append(">\n            </soap:Body>\n        </soap:Envelope>");
    r
}

/// The default namespace holds no "webpartpages/", so it is sent unchanged.
pub proof fn lemma_no_webpartpages()
    ensures
        replace_all(default_namespace(), "webpartpages/"@, "webpartpages"@) == default_namespace(),
{
    reveal_strlit("http://schemas.microsoft.com/sharepoint/soap/");
    reveal_strlit("webpartpages/");
    let d = default_namespace();
    let p = "webpartpages/"@;
    assert forall|k: int| 0 <= k <= d.len() - p.len() implies #[trigger] d.subrange(k, k + p.len()) != p by {
        if d.subrange(k, k + p.len()) == p {
            assert(d.subrange(k, k + p.len())[0] == 'w');
        }
    }
    lemma_replace_none(d, p, "webpartpages"@, 0);
    assert(d.subrange(0, d.len() as int) =~= d);
}

proof fn lemma_replace_none(s: Seq<char>, pat: Seq<char>, rep: Seq<char>, from: int)
    requires
        0 <= from <= s.len(),
        pat.len() > 0,
        forall|k: int| from <= k <= s.len() - pat.len() ==> #[trigger] s.subrange(k, k + pat.len()) != pat,
    ensures
        replace_all(s.subrange(from, s.len() as int), pat, rep) == s.subrange(from, s.len() as int),
    decreases s.len() - from,
{
    let t = s.subrange(from, s.len() as int);
    if t.len() >= pat.len() {
        assert(t.subrange(0, pat.len() as int) =~= s.subrange(from, from + pat.len()));
        lemma_replace_none(s, pat, rep, from + 1);
        assert(t.subrange(1, t.len() as int) =~= s.subrange(from + 1, s.len() as int));
        assert(seq![t[0]] + t.subrange(1, t.len() as int) =~= t);
    }
}

} // verus!
