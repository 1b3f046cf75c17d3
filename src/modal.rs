use vstd::prelude::*;
use crate::record::Record;
use crate::join::{all_wf, Row};
use crate::text::{push_char, concat2};

verus! {

/// Names what `char::is_alphanumeric` returns.
pub uninterp spec fn is_alnum(c: char) -> bool;

/// Relies on `char::is_alphanumeric`: whether the character is a letter or a
/// digit, which depends on the character alone.
#[verifier::external_body]
fn alphanumeric(c: char) -> (r: bool)
    ensures
        r == is_alnum(c),
{
    c.is_alphanumeric()
}

/// The letters and digits of `s`, in order.
pub open spec fn alnum_only(s: Seq<char>) -> Seq<char> {
    s.filter(|c: char| is_alnum(c))
}

/// The element id of the dialog frame for dialog `id`.
pub open spec fn frame_id(id: Seq<char>) -> Seq<char> {
    "sp_frame_"@ + alnum_only(id)
}

/// Whether dialog `d` has the frame id `f`.
pub open spec fn has_id(d: Row, f: Seq<char>) -> bool {
    d.dom().contains("id"@) && d["id"@] == Some(f)
}

/// Finds the open dialog whose "id" is the frame id of `id`: the first such
/// dialog of `dialogs`, if any.
pub fn get_modal_dialog(id: &str, dialogs: &Vec<Record>) -> (r: Option<Record>)
    requires
        all_wf(dialogs@),
    ensures
        match r {
            Some(d) => exists|i: int| 0 <= i < dialogs@.len() && d.seq() == dialogs@[i].seq()
                && has_id(dialogs@[i].view(), frame_id(id@))
                && forall|j: int| 0 <= j < i ==> !has_id(#[trigger] dialogs@[j].view(), frame_id(id@)),
            None => forall|j: int| 0 <= j < dialogs@.len() ==> !has_id(#[trigger] dialogs@[j].view(), frame_id(id@)),
        },
{
    let n = id.unicode_len();
    let mut clean = String::new();
    let mut i: usize = 0;
    while i < n
        invariant
            n == id@.len(),
            i <= n,
            clean@ == alnum_only(id@.subrange(0, i as int)),
        decreases n - i,
    {
        let c = id.get_char(i);
        proof {
            let pre = id@.subrange(0, i + 1);
            assert(pre.drop_last() =~= id@.subrange(0, i as int));
            assert(pre.last() == c);
            id@.subrange(0, i as int).lemma_filter_push(c, |c: char| is_alnum(c));
            assert(id@.subrange(0, i as int).push(c) =~= pre);
        }
        if alphanumeric(c) {
            push_char(&mut clean, c);
        }
        i = i + 1;
    }
    assert(id@.subrange(0, n as int) =~= id@);
    proof { reveal_strlit("sp_frame_"); reveal_strlit("id"); }
    let target = concat2("sp_frame_", clean.as_str());
    let mut k: usize = 0;
    while k < dialogs.len()
        invariant
            k <= dialogs@.len(),
            all_wf(dialogs@),
            target@ == frame_id(id@),
            forall|j: int| 0 <= j < k ==> !has_id(#[trigger] dialogs@[j].view(), frame_id(id@)),
        decreases dialogs@.len() - k,
    {
        assert(dialogs@[k as int].wf());
        match dialogs[k].get("id") {
            Some(Some(v)) => {
                if v == target {
                    return Some(dialogs[k].copy());
                }
            },
            _ => {},
        }
        k = k + 1;
    }
    None
}

} // verus!
