//! Properties that relate several operations of the store.

use vstd::prelude::*;
use crate::model::{CreateFileRequest, FileRecord, FileView, ShareRecord};
use crate::store::{
    StoreError, StoreView, file_in, file_pos, made_from, older_file_pos, older_share_pos, owned_by, share_valid,
    shared_files,
};

verus! {

proof fn lemma_no_file_pos(files: Seq<FileView>, id: u128, from: int)
    requires
        0 <= from,
        forall|i: int| from <= i < files.len() ==> files[i].id != id,
    ensures
        file_pos(files, id, from) == -1,
    decreases files.len() - from,
{
    if from < files.len() {
        lemma_no_file_pos(files, id, from + 1);
    }
}

proof fn lemma_owned_contains(files: Seq<FileView>, w: Seq<char>, k: int)
    requires
        0 <= k < files.len(),
        files[k].owner == w,
    ensures
        owned_by(files, w).contains(files[k]),
    decreases files.len(),
{
    let p = files.drop_last();
    if k == files.len() - 1 {
        assert(owned_by(files, w).last() == files[k]);
    } else {
        lemma_owned_contains(p, w, k);
        let j = choose|j: int| 0 <= j < owned_by(p, w).len() && owned_by(p, w)[j] == p[k];
        assert(owned_by(files, w)[j] == files[k]);
    }
}

proof fn lemma_owned_unique_ids(files: Seq<FileView>, w: Seq<char>)
    requires
        forall|i: int, j: int|
            0 <= i < files.len() && 0 <= j < files.len() && i != j ==> files[i].id != files[j].id,
    ensures
        forall|i: int, j: int|
            0 <= i < owned_by(files, w).len() && 0 <= j < owned_by(files, w).len() && i != j
                ==> owned_by(files, w)[i].id != owned_by(files, w)[j].id,
    decreases files.len(),
{
    if files.len() > 0 {
        let p = files.drop_last();
        lemma_owned_unique_ids(p, w);
        crate::store::lemma_owned_members(p, w);
        let o = owned_by(p, w);
        let last = files.last();
        assert forall|k: int| 0 <= k < o.len() implies o[k].id != last.id by {
            let j = choose|j: int| 0 <= j < p.len() && #[trigger] o[k] == p[j];
            assert(files[j] == p[j]);
        }
        if last.owner == w {
            let n = o.push(last);
            assert forall|i: int, j: int| 0 <= i < n.len() && 0 <= j < n.len() && i != j implies n[i].id
                != n[j].id by {
                if i < o.len() && j < o.len() {
                    assert(n[i] == o[i] && n[j] == o[j]);
                } else if i < o.len() {
                    assert(n[i] == o[i]);
                } else {
                    assert(n[j] == o[j]);
                }
            }
        }
    }
}

/// Sharing a file that is not stored is refused as not found, whatever
/// identifier the share would have had.
pub proof fn lemma_share_missing_file(s: StoreView, file_id: u128, share_id: u128)
    requires
        !s.has_file(file_id),
    ensures
        s.share_error(file_id, share_id) == Some(StoreError::NotFound),
{
}

/// A file registered by a create request is listed among its owner's files
/// with every field as the request gave it, defaults filled in, and no other
/// stored file has its identifier.
pub proof fn lemma_created_file_listed(
    s: StoreView,
    request: CreateFileRequest,
    id: u128,
    now: i64,
    f: FileRecord,
)
    requires
        s.wf(),
        s.create_error(request, id) is None,
        made_from(f@, request, id, now),
    ensures
        owned_by(s.with_file(f).files, request.owner@).contains(f@),
        forall|i: int, j: int|
            0 <= i < owned_by(s.with_file(f).files, request.owner@).len() && 0 <= j < owned_by(
                s.with_file(f).files,
                request.owner@,
            ).len() && owned_by(s.with_file(f).files, request.owner@)[i].id == id && owned_by(
                s.with_file(f).files,
                request.owner@,
            )[j].id == id ==> i == j,
        forall|i: int|
            0 <= i < s.with_file(f).files.len() && s.with_file(f).files[i].id == id
                ==> s.with_file(f).files[i] == f@,
{
    let k = older_file_pos(s.files, f.uploaded_at, 0);
    crate::store::lemma_older_file_pos_bounds(s.files, f.uploaded_at);
    let nf = s.with_file(f).files;
    assert(nf[k] == f@);
    lemma_owned_contains(nf, request.owner@, k);
    crate::store::lemma_file_pos(s.files, id, 0);
    assert forall|i: int, j: int|
        0 <= i < nf.len() && 0 <= j < nf.len() && i != j implies nf[i].id != nf[j].id by {
        if i == k {
            if j < k {
                assert(nf[j] == s.files[j]);
            } else {
                assert(nf[j] == s.files[j - 1]);
            }
        } else if j == k {
            if i < k {
                assert(nf[i] == s.files[i]);
            } else {
                assert(nf[i] == s.files[i - 1]);
            }
        } else {
            let ii = if i < k { i } else { i - 1 };
            let jj = if j < k { j } else { j - 1 };
            assert(nf[i] == s.files[ii]);
            assert(nf[j] == s.files[jj]);
        }
    }
    lemma_owned_unique_ids(nf, request.owner@);
    assert forall|i: int| 0 <= i < nf.len() && nf[i].id == id implies nf[i] == f@ by {
        if i < k {
            assert(nf[i] == s.files[i]);
        } else if i > k {
            assert(nf[i] == s.files[i - 1]);
        }
    }
}

/// Once a file is deleted, looking it up finds nothing, and deleting it
/// again changes nothing and reports that nothing was removed.
pub proof fn lemma_delete_idempotent(s: StoreView, id: u128)
    requires
        s.wf(),
    ensures
        s.without_file(id).lookup_file(id) is None,
        !s.without_file(id).has_file(id),
        s.without_file(id).without_file(id) == s.without_file(id),
{
    crate::store::lemma_file_pos(s.files, id, 0);
    let k = file_pos(s.files, id, 0);
    let t = s.without_file(id);
    if k >= 0 {
        assert forall|i: int| 0 <= i < t.files.len() implies t.files[i].id != id by {
            if i < k {
                assert(t.files[i] == s.files[i]);
            } else {
                assert(t.files[i] == s.files[i + 1]);
            }
        }
    }
    lemma_no_file_pos(t.files, id, 0);
}

proof fn lemma_shared_concat(
    a: Seq<ShareRecord>,
    b: Seq<ShareRecord>,
    files: Seq<FileView>,
    w: Seq<char>,
    t: i64,
)
    ensures
        shared_files(a + b, files, w, t) == shared_files(a, files, w, t) + shared_files(
            b,
            files,
            w,
            t,
        ),
    decreases b.len(),
{
    if b.len() == 0 {
        assert(a + b =~= a);
        assert(shared_files(a, files, w, t) + shared_files(b, files, w, t) =~= shared_files(
            a,
            files,
            w,
            t,
        ));
    } else {
        let bp = b.drop_last();
        assert((a + b).drop_last() =~= a + bp);
        assert((a + b).last() == b.last());
        lemma_shared_concat(a, bp, files, w, t);
        let x = shared_files(a, files, w, t);
        let y = shared_files(bp, files, w, t);
        match file_in(files, b.last().file_id) {
            Some(f) => {
                assert((x + y).push(f) =~= x + y.push(f));
            },
            None => {},
        }
    }
}

/// After a grant, the files shared with `w` at time `t` are those shared
/// before, with the granted file added once exactly when the share is for
/// `w` and in force at `t`: active, and with no expiry or one after `t`.
pub proof fn lemma_grant_visibility(s: StoreView, sh: ShareRecord, w: Seq<char>, t: i64)
    requires
        s.has_file(sh.file_id),
    ensures
        !(sh.recipient_id@ == w && share_valid(sh, t)) ==> s.with_share(sh).shared_with(w, t)
            == s.shared_with(w, t),
        sh.recipient_id@ == w && share_valid(sh, t) ==> s.with_share(sh).shared_with(w, t).len()
            == s.shared_with(w, t).len() + 1 && s.with_share(sh).shared_with(w, t).contains(
            s.lookup_file(sh.file_id)->Some_0,
        ),
{
    let k = older_share_pos(s.shares, sh.shared_at, 0);
    crate::store::lemma_older_share_pos_bounds(s.shares, sh.shared_at);
    let a = s.shares.take(k);
    let b = s.shares.skip(k);
    let one = seq![sh];
    assert(s.shares.insert(k, sh) =~= (a + one) + b);
    assert(s.shares =~= a + b);
    assert(one.drop_last() =~= Seq::<ShareRecord>::empty());
    assert(one.last() == sh);
    lemma_shared_concat(a + one, b, s.files, w, t);
    lemma_shared_concat(a, one, s.files, w, t);
    lemma_shared_concat(a, b, s.files, w, t);
    let x = shared_files(a, s.files, w, t);
    let y = shared_files(b, s.files, w, t);
    let c = shared_files(one, s.files, w, t);
    let empty = Seq::<ShareRecord>::empty();
    assert(shared_files(empty, s.files, w, t) == Seq::<FileView>::empty());
    let all = s.with_share(sh).shared_with(w, t);
    assert(all == (x + c) + y);
    if sh.recipient_id@ == w && share_valid(sh, t) {
        let f = s.lookup_file(sh.file_id)->Some_0;
        assert(c =~= seq![f]);
        assert(all[x.len() as int] == f);
    } else {
        assert(c =~= Seq::<FileView>::empty());
        assert(x + c =~= x);
    }
}

} // verus!
