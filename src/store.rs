//! The registry: files, accounts and shares, with the operations on them.

use vstd::prelude::*;
use crate::ident::fresh_id;
use crate::model::{
    CreateFileRequest, FileRecord, FileView, ShareFileRequest, ShareRecord, User, file_views, opt_text,
    texts,
};

verus! {

/// Why an operation on the store did not take effect.
#[derive(Debug, Clone, Copy, PartialEq, Eq, Structural)]
pub enum StoreError {
    /// The file or account asked for does not exist.
    NotFound,
    /// A file was given a negative size.
    InvalidSize,
    /// A new record was given an identifier that is already taken.
    DuplicateId,
    /// A counter or a sum would leave the range of `i64`.
    Overflow,
}

/// The whole store as mathematical values.
pub ghost struct StoreView {
    pub files: Seq<FileView>,
    pub users: Seq<User>,
    pub shares: Seq<ShareRecord>,
}

/// The registry. Files are kept newest first, shares too.
pub struct Store {
    files: Vec<FileRecord>,
    users: Vec<User>,
    shares: Vec<ShareRecord>,
}

/// Relies on chrono's `Utc::now`, read as microseconds since the Unix epoch
/// by `DateTime::timestamp_micros`.
#[verifier::external_body]
pub(crate) fn now_micros() -> (r: i64) {
    chrono::Utc::now().timestamp_micros()
}

/// Index of the first file at or after `from` with this identifier, or -1.
pub open spec fn file_pos(files: Seq<FileView>, id: u128, from: int) -> int
    decreases files.len() - from,
{
    if from < 0 || from >= files.len() {
        -1
    } else if files[from].id == id {
        from
    } else {
        file_pos(files, id, from + 1)
    }
}

/// Index of the first account at or after `from` for this wallet, or -1.
pub open spec fn user_pos(users: Seq<User>, w: Seq<char>, from: int) -> int
    decreases users.len() - from,
{
    if from < 0 || from >= users.len() {
        -1
    } else if users[from].wallet_address@ == w {
        from
    } else {
        user_pos(users, w, from + 1)
    }
}

/// Index of the first file at or after `from` uploaded before `t`, or the length.
pub open spec fn older_file_pos(files: Seq<FileView>, t: i64, from: int) -> int
    decreases files.len() - from,
{
    if from < 0 || from >= files.len() {
        files.len() as int
    } else if files[from].uploaded_at < t {
        from
    } else {
        older_file_pos(files, t, from + 1)
    }
}

/// The files of one owner, in store order.
pub open spec fn owned_by(files: Seq<FileView>, w: Seq<char>) -> Seq<FileView>
    decreases files.len(),
{
    if files.len() == 0 {
        seq![]
    } else {
        let rest = owned_by(files.drop_last(), w);
        if files.last().owner == w {
            rest.push(files.last())
        } else {
            rest
        }
    }
}

/// Newest first: upload times never increase along the sequence.
pub open spec fn newest_first(files: Seq<FileView>) -> bool {
    forall|i: int, j: int| 0 <= i < j < files.len() ==> files[i].uploaded_at >= files[j].uploaded_at
}

/// Whether a record is what a create request makes, with the given
/// identifier and upload time.
pub open spec fn made_from(f: FileView, req: CreateFileRequest, id: u128, now: i64) -> bool {
    &&& f.id == id
    &&& f.name == req.name@
    &&& f.size == req.size
    &&& f.file_type == req.file_type@
    &&& f.tx_id == req.tx_id@
    &&& f.uploaded_at == now
    &&& f.owner == req.owner@
    &&& f.is_public == match req.is_public {
        Some(b) => b,
        None => false,
    }
    &&& f.encryption_key == opt_text(req.encryption_key)
    &&& f.tags == match req.tags {
        Some(t) => texts(t@),
        None => Seq::<Seq<char>>::empty(),
    }
}

/// Index of the first share at or after `from` with this identifier, or -1.
pub open spec fn share_pos(shares: Seq<ShareRecord>, id: u128, from: int) -> int
    decreases shares.len() - from,
{
    if from < 0 || from >= shares.len() {
        -1
    } else if shares[from].id == id {
        from
    } else {
        share_pos(shares, id, from + 1)
    }
}

/// Index of the first share at or after `from` granted before `t`, or the length.
pub open spec fn older_share_pos(shares: Seq<ShareRecord>, t: i64, from: int) -> int
    decreases shares.len() - from,
{
    if from < 0 || from >= shares.len() {
        shares.len() as int
    } else if shares[from].shared_at < t {
        from
    } else {
        older_share_pos(shares, t, from + 1)
    }
}

/// A share is in force at `now` while it is active and has not expired.
pub open spec fn share_valid(s: ShareRecord, now: i64) -> bool {
    &&& s.is_active
    &&& match s.expires_at {
        Some(e) => now < e,
        None => true,
    }
}

/// The file with this identifier in a sequence of files, if any.
pub open spec fn file_in(files: Seq<FileView>, id: u128) -> Option<FileView> {
    let k = file_pos(files, id, 0);
    if k >= 0 {
        Some(files[k])
    } else {
        None
    }
}

/// The files that the shares in force at `now` give to `w`: one entry for
/// each such share whose file is stored, in the order of the shares.
pub open spec fn shared_files(
    shares: Seq<ShareRecord>,
    files: Seq<FileView>,
    w: Seq<char>,
    now: i64,
) -> Seq<FileView>
    decreases shares.len(),
{
    if shares.len() == 0 {
        seq![]
    } else {
        let rest = shared_files(shares.drop_last(), files, w, now);
        let s = shares.last();
        if s.recipient_id@ == w && share_valid(s, now) {
            match file_in(files, s.file_id) {
                Some(f) => rest.push(f),
                None => rest,
            }
        } else {
            rest
        }
    }
}

/// Whether a share is what a grant makes: the file's owner copied, the
/// access level "read" unless one is given, active.
pub open spec fn made_share(
    sh: ShareRecord,
    file: FileView,
    request: ShareFileRequest,
    share_id: u128,
    now: i64,
) -> bool {
    &&& sh.id == share_id
    &&& sh.file_id == file.id
    &&& sh.owner_id@ == file.owner
    &&& sh.recipient_id == request.recipient_address
    &&& sh.shared_at == now
    &&& sh.access_level@ == match request.access_level {
        Some(a) => a@,
        None => "read"@,
    }
    &&& sh.expires_at == request.expires_at
    &&& sh.is_active
}

impl StoreView {
    /// The invariant of the store.
    pub open spec fn wf(self) -> bool {
        &&& newest_first(self.files)
        &&& forall|i: int, j: int|
            0 <= i < self.files.len() && 0 <= j < self.files.len() && i != j
                ==> self.files[i].id != self.files[j].id
        &&& forall|i: int| 0 <= i < self.files.len() ==> self.files[i].size >= 0
        &&& forall|i: int, j: int|
            0 <= i < self.users.len() && 0 <= j < self.users.len() && i != j
                ==> self.users[i].wallet_address@ != self.users[j].wallet_address@
        &&& forall|i: int|
            0 <= i < self.users.len() ==> self.users[i].total_files >= 0
                && self.users[i].total_storage >= 0
        &&& forall|i: int, j: int|
            0 <= i < j < self.shares.len() ==> self.shares[i].shared_at >= self.shares[j].shared_at
        &&& forall|i: int, j: int|
            0 <= i < self.shares.len() && 0 <= j < self.shares.len() && i != j
                ==> self.shares[i].id != self.shares[j].id
    }

    /// The files shared with `w` through shares in force at `now`.
    pub open spec fn shared_with(self, w: Seq<char>, now: i64) -> Seq<FileView> {
        shared_files(self.shares, self.files, w, now)
    }

    /// Why a grant is refused, if it is.
    pub open spec fn share_error(self, file_id: u128, share_id: u128) -> Option<StoreError> {
        if !self.has_file(file_id) {
            Some(StoreError::NotFound)
        } else if share_pos(self.shares, share_id, 0) >= 0 {
            Some(StoreError::DuplicateId)
        } else {
            None
        }
    }

    /// The store after a share is added, after every share at least as new.
    pub open spec fn with_share(self, sh: ShareRecord) -> StoreView {
        StoreView {
            files: self.files,
            users: self.users,
            shares: self.shares.insert(older_share_pos(self.shares, sh.shared_at, 0), sh),
        }
    }

    /// The account that opening one for `w` at `now` starts with.
    pub open spec fn fresh_user(wallet: String, now: i64) -> User {
        User {
            wallet_address: wallet,
            created_at: now,
            total_files: 0,
            total_storage: 0,
            last_activity: now,
        }
    }

    /// Every file of one owner has a size of zero or more.
    pub proof fn lemma_owned_sizes(self, w: Seq<char>)
        requires
            self.wf(),
        ensures
            forall|k: int|
                0 <= k < owned_by(self.files, w).len() ==> owned_by(self.files, w)[k].size >= 0,
    {
        lemma_owned_members(self.files, w);
    }

    /// Whether a file with this identifier is stored.
    pub open spec fn has_file(self, id: u128) -> bool {
        file_pos(self.files, id, 0) >= 0
    }

    /// The file with this identifier, if any.
    pub open spec fn lookup_file(self, id: u128) -> Option<FileView> {
        file_in(self.files, id)
    }

    /// The account of this wallet, if any.
    pub open spec fn lookup_user(self, w: Seq<char>) -> Option<User> {
        let k = user_pos(self.users, w, 0);
        if k >= 0 {
            Some(self.users[k])
        } else {
            None
        }
    }

    /// Why a create request with this identifier is refused, if it is.
    pub open spec fn create_error(self, req: CreateFileRequest, id: u128) -> Option<StoreError> {
        if req.size < 0 {
            Some(StoreError::InvalidSize)
        } else if self.has_file(id) {
            Some(StoreError::DuplicateId)
        } else {
            match self.lookup_user(req.owner@) {
                Some(u) => if u.total_files + 1 > i64::MAX || u.total_storage + req.size > i64::MAX {
                    Some(StoreError::Overflow)
                } else {
                    None
                },
                None => None,
            }
        }
    }

    /// The accounts after `f` is uploaded: its owner's counters go up by one
    /// file and by its size, or a new account starts with them.
    pub open spec fn credited(self, f: FileRecord) -> Seq<User> {
        let k = user_pos(self.users, f.owner@, 0);
        if k >= 0 {
            let u = self.users[k];
            self.users.update(
                k,
                User {
                    wallet_address: u.wallet_address,
                    created_at: u.created_at,
                    total_files: (u.total_files + 1) as i64,
                    total_storage: (u.total_storage + f.size) as i64,
                    last_activity: f.uploaded_at,
                },
            )
        } else {
            self.users.push(
                User {
                    wallet_address: f.owner,
                    created_at: f.uploaded_at,
                    total_files: 1,
                    total_storage: f.size,
                    last_activity: f.uploaded_at,
                },
            )
        }
    }

    /// The store after `f` is added: placed after every file at least as
    /// new, and credited to its owner.
    pub open spec fn with_file(self, f: FileRecord) -> StoreView {
        StoreView {
            files: self.files.insert(older_file_pos(self.files, f.uploaded_at, 0), f@),
            users: self.credited(f),
            shares: self.shares,
        }
    }

    /// The store after the file with this identifier is removed, if any.
    pub open spec fn without_file(self, id: u128) -> StoreView {
        let k = file_pos(self.files, id, 0);
        if k >= 0 {
            StoreView { files: self.files.remove(k), users: self.users, shares: self.shares }
        } else {
            self
        }
    }
}

/// Each file of an owner is one of the stored files, of that owner.
pub proof fn lemma_owned_members(files: Seq<FileView>, w: Seq<char>)
    ensures
        forall|k: int|
            0 <= k < owned_by(files, w).len() ==> exists|j: int|
                0 <= j < files.len() && #[trigger] owned_by(files, w)[k] == files[j],
        forall|k: int| 0 <= k < owned_by(files, w).len() ==> (#[trigger] owned_by(files, w)[k]).owner == w,
    decreases files.len(),
{
    if files.len() > 0 {
        let p = files.drop_last();
        lemma_owned_members(p, w);
        assert forall|k: int| 0 <= k < owned_by(files, w).len() implies exists|j: int|
            0 <= j < files.len() && #[trigger] owned_by(files, w)[k] == files[j] by {
            if k < owned_by(p, w).len() {
                let j = choose|j: int| 0 <= j < p.len() && owned_by(p, w)[k] == p[j];
                assert(owned_by(files, w)[k] == files[j]);
            } else {
                assert(owned_by(files, w)[k] == files[files.len() - 1]);
            }
        }
    }
}

/// A file found by identifier carries that identifier.
pub proof fn lemma_found_file(files: Seq<FileView>, id: u128)
    ensures
        file_in(files, id) matches Some(f) ==> f.id == id,
{
    lemma_file_pos(files, id, 0);
}

/// Where a new file goes: at an index within the sequence.
pub proof fn lemma_older_file_pos_bounds(files: Seq<FileView>, t: i64)
    ensures
        0 <= older_file_pos(files, t, 0) <= files.len(),
{
    lemma_older_pos_range(files, t, 0);
}

proof fn lemma_older_pos_range(files: Seq<FileView>, t: i64, from: int)
    requires
        0 <= from <= files.len(),
    ensures
        from <= older_file_pos(files, t, from) <= files.len(),
    decreases files.len() - from,
{
    if from < files.len() && files[from].uploaded_at >= t {
        lemma_older_pos_range(files, t, from + 1);
    }
}

/// Where a new share goes: at an index within the sequence.
pub proof fn lemma_older_share_pos_bounds(shares: Seq<ShareRecord>, t: i64)
    ensures
        0 <= older_share_pos(shares, t, 0) <= shares.len(),
{
    lemma_older_share_pos(shares, t, 0);
}

/// An owner's files keep the store's newest-first order.
pub proof fn lemma_owned_newest_first(files: Seq<FileView>, w: Seq<char>)
    requires
        newest_first(files),
    ensures
        newest_first(owned_by(files, w)),
    decreases files.len(),
{
    if files.len() > 0 {
        let p = files.drop_last();
        lemma_owned_newest_first(p, w);
        lemma_owned_members(p, w);
        let o = owned_by(p, w);
        assert forall|k: int| 0 <= k < o.len() implies o[k].uploaded_at >= files.last().uploaded_at by {
            let j = choose|j: int| 0 <= j < p.len() && #[trigger] o[k] == p[j];
            assert(files[j] == p[j]);
        }
        if files.last().owner == w {
            let n = o.push(files.last());
            assert forall|a: int, b: int| 0 <= a < b < n.len() implies n[a].uploaded_at
                >= n[b].uploaded_at by {
                if b == o.len() {
                } else {
                    assert(n[a] == o[a] && n[b] == o[b]);
                }
            }
        }
    }
}

/// Where the search for an identifier from `from` stops, and what it finds.
pub proof fn lemma_file_pos(files: Seq<FileView>, id: u128, from: int)
    requires
        0 <= from,
    ensures
        file_pos(files, id, from) == -1 ==> forall|i: int|
            from <= i < files.len() ==> files[i].id != id,
        file_pos(files, id, from) != -1 ==> from <= file_pos(files, id, from) < files.len()
            && files[file_pos(files, id, from)].id == id,
    decreases files.len() - from,
{
    if from < files.len() && files[from].id != id {
        lemma_file_pos(files, id, from + 1);
    }
}

proof fn lemma_user_pos(users: Seq<User>, w: Seq<char>, from: int)
    requires
        0 <= from,
    ensures
        user_pos(users, w, from) == -1 ==> forall|i: int|
            from <= i < users.len() ==> users[i].wallet_address@ != w,
        user_pos(users, w, from) != -1 ==> from <= user_pos(users, w, from) < users.len()
            && users[user_pos(users, w, from)].wallet_address@ == w,
    decreases users.len() - from,
{
    if from < users.len() && users[from].wallet_address@ != w {
        lemma_user_pos(users, w, from + 1);
    }
}

proof fn lemma_older_file_pos(files: Seq<FileView>, t: i64, from: int)
    requires
        0 <= from <= files.len(),
        newest_first(files),
    ensures
        from <= older_file_pos(files, t, from) <= files.len(),
        forall|i: int| from <= i < older_file_pos(files, t, from) ==> files[i].uploaded_at >= t,
        forall|i: int| older_file_pos(files, t, from) <= i < files.len() ==> files[i].uploaded_at < t,
    decreases files.len() - from,
{
    if from < files.len() && files[from].uploaded_at >= t {
        lemma_older_file_pos(files, t, from + 1);
    }
}

proof fn lemma_share_pos(shares: Seq<ShareRecord>, id: u128, from: int)
    requires
        0 <= from,
    ensures
        share_pos(shares, id, from) == -1 ==> forall|i: int|
            from <= i < shares.len() ==> shares[i].id != id,
    decreases shares.len() - from,
{
    if from < shares.len() && shares[from].id != id {
        lemma_share_pos(shares, id, from + 1);
    }
}

proof fn lemma_older_share_pos(shares: Seq<ShareRecord>, t: i64, from: int)
    requires
        0 <= from <= shares.len(),
    ensures
        from <= older_share_pos(shares, t, from) <= shares.len(),
        forall|i: int| from <= i < older_share_pos(shares, t, from) ==> shares[i].shared_at >= t,
        older_share_pos(shares, t, from) < shares.len() ==> shares[older_share_pos(shares, t, from)].shared_at < t,
    decreases shares.len() - from,
{
    if from < shares.len() && shares[from].shared_at >= t {
        lemma_older_share_pos(shares, t, from + 1);
    }
}

impl View for Store {
    type V = StoreView;

    closed spec fn view(&self) -> StoreView {
        StoreView { files: file_views(self.files@), users: self.users@, shares: self.shares@ }
    }
}

impl Store {
    /// An empty store.
    pub fn new() -> (r: Store)
        ensures
            r@.files.len() == 0,
            r@.users.len() == 0,
            r@.shares.len() == 0,
            r@.wf(),
    {
        Store { files: Vec::new(), users: Vec::new(), shares: Vec::new() }
    }

    /// Registers a file under the given identifier and upload time, and
    /// credits it to its owner's account, creating that account if needed.
    /// Either both take effect or neither does.
    pub fn create_file_at(&mut self, request: CreateFileRequest, id: u128, now: i64) -> (r: Result<
        FileRecord,
        StoreError,
    >)
        requires
            old(self)@.wf(),
        ensures
            final(self)@.wf(),
            match old(self)@.create_error(request, id) {
                Some(e) => r == Err::<FileRecord, StoreError>(e) && final(self)@ == old(self)@,
                None => r is Ok && made_from(r->Ok_0@, request, id, now) && final(self)@ == old(
                    self,
                )@.with_file(r->Ok_0),
            },
    {
        if request.size < 0 {
            return Err(StoreError::InvalidSize);
        }
        if self.find_file(id).is_some() {
            return Err(StoreError::DuplicateId);
        }
        let owner_key = request.owner.clone();
        let slot = self.find_user(&owner_key);
        match slot {
            Some(k) => {
                if self.users[k].total_files == i64::MAX || self.users[k].total_storage > i64::MAX
                    - request.size {
                    return Err(StoreError::Overflow);
                }
            },
            None => {},
        }
        let ghost s0 = self@;
        proof {
            lemma_file_pos(s0.files, id, 0);
            lemma_user_pos(s0.users, owner_key@, 0);
        }
        let size = request.size;
        let is_public = match request.is_public {
            Some(b) => b,
            None => false,
        };
        let tags = match request.tags {
            Some(t) => t,
            None => Vec::new(),
        };
        let file = FileRecord {
            id,
            name: request.name,
            size,
            file_type: request.file_type,
            tx_id: request.tx_id,
            uploaded_at: now,
            owner: request.owner,
            is_public,
            encryption_key: request.encryption_key,
            tags,
        };
        assert(file@.tags == match request.tags {
            Some(t) => texts(t@),
            None => Seq::<Seq<char>>::empty(),
        }) by {
            if request.tags.is_none() {
                assert(texts(file.tags@) =~= Seq::<Seq<char>>::empty());
            }
        }
        let stored = file.duplicate();
        let pos = self.older_file(now);
        proof {
            lemma_older_file_pos(s0.files, now, 0);
        }
        self.files.insert(pos, stored);
        match slot {
            Some(k) => {
                let u = User {
                    wallet_address: self.users[k].wallet_address.clone(),
                    created_at: self.users[k].created_at,
                    total_files: self.users[k].total_files + 1,
                    total_storage: self.users[k].total_storage + size,
                    last_activity: now,
                };
                self.users.set(k, u);
            },
            None => {
                self.users.push(
                    User {
                        wallet_address: owner_key,
                        created_at: now,
                        total_files: 1,
                        total_storage: size,
                        last_activity: now,
                    },
                );
            },
        }
        proof {
            let s1 = self@;
            let k = pos as int;
            assert(s1.files =~= s0.files.insert(k, file@));
            assert(s1.users =~= s0.credited(file));
            assert(newest_first(s1.files));
            assert forall|i: int, j: int|
                0 <= i < s1.files.len() && 0 <= j < s1.files.len() && i != j implies s1.files[i].id
                != s1.files[j].id by {
                if i == k {
                    if j < k {
                        assert(s1.files[j] == s0.files[j]);
                    } else {
                        assert(s1.files[j] == s0.files[j - 1]);
                    }
                } else if j == k {
                    if i < k {
                        assert(s1.files[i] == s0.files[i]);
                    } else {
                        assert(s1.files[i] == s0.files[i - 1]);
                    }
                }
            }
            assert forall|i: int| 0 <= i < s1.files.len() implies s1.files[i].size >= 0 by {
                if i < k {
                } else if i > k {
                    assert(s1.files[i] == s0.files[i - 1]);
                }
            }
        }
        Ok(file)
    }

    /// The files of one owner, newest first.
    pub fn get_user_files(&self, wallet_address: &str) -> (r: Vec<FileRecord>)
        ensures
            file_views(r@) == owned_by(self@.files, wallet_address@),
            self@.wf() ==> newest_first(file_views(r@)),
    {
        let mut r: Vec<FileRecord> = Vec::new();
        let key = wallet_address.to_owned();
        let mut i: usize = 0;
        while i < self.files.len()
            invariant
                i <= self.files.len(),
                key@ == wallet_address@,
                self@.files == file_views(self.files@),
                file_views(r@) == owned_by(self@.files.take(i as int), wallet_address@),
            decreases self.files.len() - i,
        {
            let ghost before = r@;
            if self.files[i].owner == key {
                r.push(self.files[i].duplicate());
                assert(file_views(r@) =~= file_views(before).push(self@.files[i as int]));
            } else {
                assert(file_views(r@) =~= file_views(before));
            }
            assert(self@.files.take(i + 1).drop_last() =~= self@.files.take(i as int));
            i = i + 1;
        }
        assert(self@.files.take(i as int) =~= self@.files);
        proof {
            if self@.wf() {
                lemma_owned_newest_first(self@.files, wallet_address@);
            }
        }
        r
    }

    /// The file with this identifier, if it is stored.
    pub fn get_file_by_id(&self, file_id: u128) -> (r: Option<FileRecord>)
        ensures
            match r {
                Some(f) => self@.lookup_file(file_id) == Some(f@),
                None => self@.lookup_file(file_id) is None,
            },
    {
        match self.find_file(file_id) {
            Some(k) => Some(self.files[k].duplicate()),
            None => None,
        }
    }

    /// Removes the file with this identifier; whether one was removed.
    /// Account counters are left as they are.
    pub fn delete_file(&mut self, file_id: u128) -> (r: bool)
        requires
            old(self)@.wf(),
        ensures
            final(self)@.wf(),
            r == old(self)@.has_file(file_id),
            final(self)@ == old(self)@.without_file(file_id),
            !final(self)@.has_file(file_id),
    {
        let ghost s0 = self@;
        proof {
            lemma_file_pos(s0.files, file_id, 0);
        }
        match self.find_file(file_id) {
            Some(k) => {
                self.files.remove(k);
                proof {
                    let s1 = self@;
                    assert(s1.files =~= s0.files.remove(k as int));
                    assert(s1 == s0.without_file(file_id));
                    assert forall|i: int, j: int| 0 <= i < j < s1.files.len() implies s1.files[i].uploaded_at
                        >= s1.files[j].uploaded_at by {
                        if i >= k {
                            assert(s1.files[i] == s0.files[i + 1]);
                        }
                        if j >= k {
                            assert(s1.files[j] == s0.files[j + 1]);
                        }
                    }
                    assert forall|i: int| 0 <= i < s1.files.len() implies s1.files[i].id != file_id by {
                        if i >= k {
                            assert(s1.files[i] == s0.files[i + 1]);
                        }
                    }
                    lemma_file_pos(s1.files, file_id, 0);
                }
                true
            },
            None => {
                false
            },
        }
    }

    fn older_file(&self, t: i64) -> (r: usize)
        ensures
            r as int == older_file_pos(self@.files, t, 0),
            r <= self.files@.len(),
    {
        let mut i: usize = 0;
        while i < self.files.len()
            invariant
                i <= self.files.len(),
                older_file_pos(self@.files, t, 0) == older_file_pos(self@.files, t, i as int),
                self@.files == file_views(self.files@),
            decreases self.files.len() - i,
        {
            if self.files[i].uploaded_at < t {
                return i;
            }
            i = i + 1;
        }
        i
    }

    /// Opens an account for a wallet at time `now`. Where the wallet has
    /// one already, nothing changes and that account is returned.
    pub fn create_user_at(&mut self, wallet_address: String, now: i64) -> (r: User)
        requires
            old(self)@.wf(),
        ensures
            final(self)@.wf(),
            match old(self)@.lookup_user(wallet_address@) {
                Some(u) => r == u && final(self)@ == old(self)@,
                None => r == StoreView::fresh_user(wallet_address, now) && final(self)@ == (StoreView {
                    users: old(self)@.users.push(r),
                    ..old(self)@
                }),
            },
    {
        match self.find_user(&wallet_address) {
            Some(k) => self.users[k].duplicate(),
            None => {
                let ghost s0 = self@;
                proof {
                    lemma_user_pos(s0.users, wallet_address@, 0);
                }
                let u = User {
                    wallet_address,
                    created_at: now,
                    total_files: 0,
                    total_storage: 0,
                    last_activity: now,
                };
                self.users.push(u.duplicate());
                proof {
                    assert(self@.users =~= s0.users.push(u));
                }
                u
            },
        }
    }

    /// The account of a wallet, if it has one.
    pub fn get_user(&self, wallet_address: &str) -> (r: Option<User>)
        ensures
            r == self@.lookup_user(wallet_address@),
    {
        let key = wallet_address.to_owned();
        match self.find_user(&key) {
            Some(k) => Some(self.users[k].duplicate()),
            None => None,
        }
    }

    /// Grants `request.recipient_address` access to a stored file, under the
    /// given share identifier and time. The share copies the file's owner.
    pub fn share_file_at(
        &mut self,
        file_id: u128,
        request: ShareFileRequest,
        share_id: u128,
        now: i64,
    ) -> (r: Result<ShareRecord, StoreError>)
        requires
            old(self)@.wf(),
        ensures
            final(self)@.wf(),
            match old(self)@.share_error(file_id, share_id) {
                Some(e) => r == Err::<ShareRecord, StoreError>(e) && final(self)@ == old(self)@,
                None => r is Ok && made_share(
                    r->Ok_0,
                    old(self)@.lookup_file(file_id)->Some_0,
                    request,
                    share_id,
                    now,
                ) && final(self)@ == old(self)@.with_share(r->Ok_0),
            },
    {
        let ghost s0 = self@;
        let k = match self.find_file(file_id) {
            Some(k) => k,
            None => {
                return Err(StoreError::NotFound);
            },
        };
        if self.find_share(share_id).is_some() {
            return Err(StoreError::DuplicateId);
        }
        proof {
            lemma_share_pos(s0.shares, share_id, 0);
        }
        let access_level = match request.access_level {
            Some(a) => a,
            None => "read".to_owned(),
        };
        let share = ShareRecord {
            id: share_id,
            file_id,
            owner_id: self.files[k].owner.clone(),
            recipient_id: request.recipient_address,
            shared_at: now,
            access_level,
            expires_at: request.expires_at,
            is_active: true,
        };
        let pos = self.older_share(now);
        proof {
            lemma_older_share_pos(s0.shares, now, 0);
        }
        self.shares.insert(pos, share.duplicate());
        proof {
            let s1 = self@;
            let p = pos as int;
            assert(s1.shares =~= s0.shares.insert(p, share));
            assert forall|i: int, j: int| 0 <= i < j < s1.shares.len() implies s1.shares[i].shared_at
                >= s1.shares[j].shared_at by {
                if j < p {
                } else if j == p {
                } else if i < p {
                    assert(s1.shares[j] == s0.shares[j - 1]);
                    if j - 1 > p {
                        assert(s0.shares[p].shared_at >= s0.shares[j - 1].shared_at);
                    }
                } else if i == p {
                    assert(s1.shares[j] == s0.shares[j - 1]);
                    if j - 1 > p {
                        assert(s0.shares[p].shared_at >= s0.shares[j - 1].shared_at);
                    }
                } else {
                }
            }
            assert forall|i: int, j: int|
                0 <= i < s1.shares.len() && 0 <= j < s1.shares.len() && i != j implies s1.shares[i].id
                != s1.shares[j].id by {
                if i == p {
                    if j < p {
                        assert(s1.shares[j] == s0.shares[j]);
                    } else {
                        assert(s1.shares[j] == s0.shares[j - 1]);
                    }
                } else if j == p {
                    if i < p {
                        assert(s1.shares[i] == s0.shares[i]);
                    } else {
                        assert(s1.shares[i] == s0.shares[i - 1]);
                    }
                }
            }
        }
        proof {
            let s1 = self@;
            assert(s1 == s0.with_share(share));
            lemma_file_pos(s0.files, file_id, 0);
            assert(made_share(share, s0.lookup_file(file_id)->Some_0, request, share_id, now));
        }
        Ok(share)
    }

    /// The files shared with a wallet through shares in force at `now`,
    /// newest share first, one entry for each such share.
    pub fn get_shared_files_at(&self, wallet_address: &str, now: i64) -> (r: Vec<FileRecord>)
        ensures
            file_views(r@) == self@.shared_with(wallet_address@, now),
    {
        let mut r: Vec<FileRecord> = Vec::new();
        let key = wallet_address.to_owned();
        let mut i: usize = 0;
        while i < self.shares.len()
            invariant
                i <= self.shares.len(),
                key@ == wallet_address@,
                self@.shares == self.shares@,
                file_views(r@) == shared_files(
                    self@.shares.take(i as int),
                    self@.files,
                    wallet_address@,
                    now,
                ),
            decreases self.shares.len() - i,
        {
            let ghost before = r@;
            let s = &self.shares[i];
            let valid = s.is_active && match s.expires_at {
                Some(e) => now < e,
                None => true,
            };
            if s.recipient_id == key && valid {
                match self.get_file_by_id(s.file_id) {
                    Some(f) => {
                        r.push(f);
                        assert(file_views(r@) =~= file_views(before).push(f@));
                    },
                    None => {},
                }
            }
            assert(self@.shares.take(i + 1).drop_last() =~= self@.shares.take(i as int));
            i = i + 1;
        }
        assert(self@.shares.take(i as int) =~= self@.shares);
        r
    }

    fn find_share(&self, id: u128) -> (r: Option<usize>)
        ensures
            match r {
                Some(k) => k < self.shares@.len() && share_pos(self@.shares, id, 0) == k as int,
                None => share_pos(self@.shares, id, 0) == -1,
            },
    {
        let mut i: usize = 0;
        while i < self.shares.len()
            invariant
                i <= self.shares.len(),
                share_pos(self@.shares, id, 0) == share_pos(self@.shares, id, i as int),
                self@.shares == self.shares@,
            decreases self.shares.len() - i,
        {
            if self.shares[i].id == id {
                return Some(i);
            }
            i = i + 1;
        }
        None
    }

    fn older_share(&self, t: i64) -> (r: usize)
        ensures
            r as int == older_share_pos(self@.shares, t, 0),
            r <= self.shares@.len(),
    {
        let mut i: usize = 0;
        while i < self.shares.len()
            invariant
                i <= self.shares.len(),
                older_share_pos(self@.shares, t, 0) == older_share_pos(self@.shares, t, i as int),
                self@.shares == self.shares@,
            decreases self.shares.len() - i,
        {
            if self.shares[i].shared_at < t {
                return i;
            }
            i = i + 1;
        }
        i
    }

    /// Registers a file under a fresh random identifier, uploaded now:
    /// what `create_file_at` does for that identifier and time.
    pub fn create_file(&mut self, request: CreateFileRequest) -> (r: Result<FileRecord, StoreError>)
        requires
            old(self)@.wf(),
        ensures
            final(self)@.wf(),
            match r {
                Ok(f) => old(self)@.create_error(request, f.id) is None && made_from(
                    f@,
                    request,
                    f.id,
                    f.uploaded_at,
                ) && final(self)@ == old(self)@.with_file(f),
                Err(e) => final(self)@ == old(self)@ && exists|id: u128|
                    old(self)@.create_error(request, id) == Some(e),
            },
    {
        let id = fresh_id();
        let now = now_micros();
        let r = self.create_file_at(request, id, now);
        proof {
            if r is Err {
                assert(old(self)@.create_error(request, id) == Some(r->Err_0));
            }
        }
        r
    }

    /// Opens an account for a wallet now; where it has one, that account.
    pub fn create_user(&mut self, wallet_address: String) -> (r: User)
        requires
            old(self)@.wf(),
        ensures
            final(self)@.wf(),
            match old(self)@.lookup_user(wallet_address@) {
                Some(u) => r == u && final(self)@ == old(self)@,
                None => r == StoreView::fresh_user(wallet_address, r.created_at) && final(self)@ == (
                StoreView { users: old(self)@.users.push(r), ..old(self)@ }),
            },
    {
        let now = now_micros();
        self.create_user_at(wallet_address, now)
    }

    /// Grants access to a stored file under a fresh random share
    /// identifier, now: what `share_file_at` does for them.
    pub fn share_file(&mut self, file_id: u128, request: ShareFileRequest) -> (r: Result<
        ShareRecord,
        StoreError,
    >)
        requires
            old(self)@.wf(),
        ensures
            final(self)@.wf(),
            !old(self)@.has_file(file_id) ==> r == Err::<ShareRecord, StoreError>(
                StoreError::NotFound,
            ),
            match r {
                Ok(sh) => old(self)@.share_error(file_id, sh.id) is None && made_share(
                    sh,
                    old(self)@.lookup_file(file_id)->Some_0,
                    request,
                    sh.id,
                    sh.shared_at,
                ) && final(self)@ == old(self)@.with_share(sh),
                Err(e) => final(self)@ == old(self)@ && exists|id: u128|
                    old(self)@.share_error(file_id, id) == Some(e),
            },
    {
        let id = fresh_id();
        let now = now_micros();
        let r = self.share_file_at(file_id, request, id, now);
        proof {
            if r is Err {
                assert(old(self)@.share_error(file_id, id) == Some(r->Err_0));
            }
        }
        r
    }

    /// The files shared with a wallet through the shares in force now.
    pub fn get_shared_files(&self, wallet_address: &str) -> (r: Vec<FileRecord>)
        ensures
            exists|now: i64| file_views(r@) == self@.shared_with(wallet_address@, now),
    {
        let now = now_micros();
        self.get_shared_files_at(wallet_address, now)
    }

    fn find_file(&self, id: u128) -> (r: Option<usize>)
        ensures
            match r {
                Some(k) => k < self.files@.len() && file_pos(self@.files, id, 0) == k as int,
                None => file_pos(self@.files, id, 0) == -1,
            },
    {
        let mut i: usize = 0;
        while i < self.files.len()
            invariant
                i <= self.files.len(),
                file_pos(self@.files, id, 0) == file_pos(self@.files, id, i as int),
                self@.files == file_views(self.files@),
            decreases self.files.len() - i,
        {
            if self.files[i].id == id {
                return Some(i);
            }
            i = i + 1;
        }
        None
    }

    fn find_user(&self, w: &String) -> (r: Option<usize>)
        ensures
            match r {
                Some(k) => k < self.users@.len() && user_pos(self@.users, w@, 0) == k as int,
                None => user_pos(self@.users, w@, 0) == -1,
            },
    {
        let mut i: usize = 0;
        while i < self.users.len()
            invariant
                i <= self.users.len(),
                user_pos(self@.users, w@, 0) == user_pos(self@.users, w@, i as int),
                self@.users == self.users@,
            decreases self.users.len() - i,
        {
            if self.users[i].wallet_address == *w {
                return Some(i);
            }
            i = i + 1;
        }
        None
    }
}

} // verus!
