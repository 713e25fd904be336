//! The records of the registry and the shapes of requests and responses.
//! Timestamps are microseconds since the Unix epoch, in UTC.

use vstd::prelude::*;
use crate::ident::{id_text, id_text_of};

verus! {

/// A stored file's metadata.
pub struct FileRecord {
    pub id: u128,
    pub name: String,
    pub size: i64,
    pub file_type: String,
    pub tx_id: String,
    pub uploaded_at: i64,
    pub owner: String,
    pub is_public: bool,
    pub encryption_key: Option<String>,
    pub tags: Vec<String>,
}

/// A file record as a mathematical value.
pub ghost struct FileView {
    pub id: u128,
    pub name: Seq<char>,
    pub size: i64,
    pub file_type: Seq<char>,
    pub tx_id: Seq<char>,
    pub uploaded_at: i64,
    pub owner: Seq<char>,
    pub is_public: bool,
    pub encryption_key: Option<Seq<char>>,
    pub tags: Seq<Seq<char>>,
}

/// The texts of a list of strings.
pub open spec fn texts(v: Seq<String>) -> Seq<Seq<char>> {
    v.map_values(|s: String| s@)
}

/// The text of an optional string.
pub open spec fn opt_text(o: Option<String>) -> Option<Seq<char>> {
    match o {
        Some(s) => Some(s@),
        None => None,
    }
}

impl View for FileRecord {
    type V = FileView;

    open spec fn view(&self) -> FileView {
        FileView {
            id: self.id,
            name: self.name@,
            size: self.size,
            file_type: self.file_type@,
            tx_id: self.tx_id@,
            uploaded_at: self.uploaded_at,
            owner: self.owner@,
            is_public: self.is_public,
            encryption_key: opt_text(self.encryption_key),
            tags: texts(self.tags@),
        }
    }
}

/// The views of a list of records.
pub open spec fn file_views(s: Seq<FileRecord>) -> Seq<FileView> {
    s.map_values(|f: FileRecord| f@)
}

/// What a caller supplies to register a file.
pub struct CreateFileRequest {
    pub name: String,
    pub size: i64,
    pub file_type: String,
    pub tx_id: String,
    pub owner: String,
    pub is_public: Option<bool>,
    pub encryption_key: Option<String>,
    pub tags: Option<Vec<String>>,
}

/// A file as shown to callers: the record without its encryption key, and
/// with the identifier in text form.
pub struct FileResponse {
    pub id: String,
    pub name: String,
    pub size: i64,
    pub file_type: String,
    pub tx_id: String,
    pub uploaded_at: i64,
    pub owner: String,
    pub is_public: bool,
    pub tags: Vec<String>,
}

/// What a caller supplies to share a file.
pub struct ShareFileRequest {
    pub recipient_address: String,
    pub access_level: Option<String>,
    pub expires_at: Option<i64>,
}

/// A grant of access to one file for one recipient.
pub struct ShareRecord {
    pub id: u128,
    pub file_id: u128,
    pub owner_id: String,
    pub recipient_id: String,
    pub shared_at: i64,
    pub access_level: String,
    pub expires_at: Option<i64>,
    pub is_active: bool,
}

/// A share as shown to callers, identifiers in text form.
pub struct ShareResponse {
    pub id: String,
    pub file_id: String,
    pub owner_id: String,
    pub recipient_id: String,
    pub shared_at: i64,
    pub access_level: String,
    pub expires_at: Option<i64>,
    pub is_active: bool,
}

/// A wallet's account with its running counters.
pub struct User {
    pub wallet_address: String,
    pub created_at: i64,
    pub total_files: i64,
    pub total_storage: i64,
    pub last_activity: i64,
}

/// What a caller supplies to open an account.
pub struct CreateUserRequest {
    pub wallet_address: String,
}

/// An account as shown to callers.
pub struct UserResponse {
    pub wallet_address: String,
    pub created_at: i64,
    pub total_files: i64,
    pub total_storage: i64,
    pub last_activity: i64,
}

/// Aggregate usage of one wallet.
pub struct UserStats {
    pub total_files: i64,
    pub total_storage: i64,
    pub files_uploaded_today: i64,
    pub storage_used_today: i64,
    pub most_used_file_types: Vec<FileTypeUsage>,
}

/// How many of a wallet's files have one type, and their summed size.
pub struct FileTypeUsage {
    pub file_type: String,
    pub count: i64,
    pub total_size: i64,
}

/// Copies a list of strings.
fn copy_strings(v: &Vec<String>) -> (r: Vec<String>)
    ensures
        r@ == v@,
{
    let mut r: Vec<String> = Vec::new();
    let mut i: usize = 0;
    while i < v.len()
        invariant
            i <= v.len(),
            r@ == v@.take(i as int),
        decreases v.len() - i,
    {
        r.push(v[i].clone());
        i = i + 1;
        assert(r@ =~= v@.take(i as int));
    }
    assert(r@ =~= v@);
    r
}

/// Copies an optional string.
fn copy_opt_string(o: &Option<String>) -> (r: Option<String>)
    ensures
        r == *o,
{
    match o {
        Some(s) => Some(s.clone()),
        None => None,
    }
}

impl FileRecord {
    /// A copy of this record.
    pub fn duplicate(&self) -> (r: FileRecord)
        ensures
            r@ == self@,
    {
        FileRecord {
            id: self.id,
            name: self.name.clone(),
            size: self.size,
            file_type: self.file_type.clone(),
            tx_id: self.tx_id.clone(),
            uploaded_at: self.uploaded_at,
            owner: self.owner.clone(),
            is_public: self.is_public,
            encryption_key: copy_opt_string(&self.encryption_key),
            tags: copy_strings(&self.tags),
        }
    }
}

impl User {
    /// A copy of this account.
    pub fn duplicate(&self) -> (r: User)
        ensures
            r == *self,
    {
        User {
            wallet_address: self.wallet_address.clone(),
            created_at: self.created_at,
            total_files: self.total_files,
            total_storage: self.total_storage,
            last_activity: self.last_activity,
        }
    }
}

impl ShareRecord {
    /// A copy of this share.
    pub fn duplicate(&self) -> (r: ShareRecord)
        ensures
            r == *self,
    {
        ShareRecord {
            id: self.id,
            file_id: self.file_id,
            owner_id: self.owner_id.clone(),
            recipient_id: self.recipient_id.clone(),
            shared_at: self.shared_at,
            access_level: self.access_level.clone(),
            expires_at: self.expires_at,
            is_active: self.is_active,
        }
    }
}

impl FileTypeUsage {
    /// A copy of this entry.
    pub fn duplicate(&self) -> (r: FileTypeUsage)
        ensures
            r == *self,
    {
        FileTypeUsage {
            file_type: self.file_type.clone(),
            count: self.count,
            total_size: self.total_size,
        }
    }
}

impl FileResponse {
    /// The outward form of a record: every field but the encryption key,
    /// the identifier written out as text.
    pub fn from_record(file: FileRecord) -> (r: FileResponse)
        ensures
            r.id@ == id_text_of(file.id),
            r.name == file.name,
            r.size == file.size,
            r.file_type == file.file_type,
            r.tx_id == file.tx_id,
            r.uploaded_at == file.uploaded_at,
            r.owner == file.owner,
            r.is_public == file.is_public,
            r.tags == file.tags,
    {
        FileResponse {
            id: id_text(file.id),
            name: file.name,
            size: file.size,
            file_type: file.file_type,
            tx_id: file.tx_id,
            uploaded_at: file.uploaded_at,
            owner: file.owner,
            is_public: file.is_public,
            tags: file.tags,
        }
    }
}

impl ShareResponse {
    /// The outward form of a share, identifiers written out as text.
    pub fn from_record(share: ShareRecord) -> (r: ShareResponse)
        ensures
            r.id@ == id_text_of(share.id),
            r.file_id@ == id_text_of(share.file_id),
            r.owner_id == share.owner_id,
            r.recipient_id == share.recipient_id,
            r.shared_at == share.shared_at,
            r.access_level == share.access_level,
            r.expires_at == share.expires_at,
            r.is_active == share.is_active,
    {
        ShareResponse {
            id: id_text(share.id),
            file_id: id_text(share.file_id),
            owner_id: share.owner_id,
            recipient_id: share.recipient_id,
            shared_at: share.shared_at,
            access_level: share.access_level,
            expires_at: share.expires_at,
            is_active: share.is_active,
        }
    }
}

impl UserResponse {
    /// The outward form of an account: the same fields.
    pub fn from_user(user: User) -> (r: UserResponse)
        ensures
            r.wallet_address == user.wallet_address,
            r.created_at == user.created_at,
            r.total_files == user.total_files,
            r.total_storage == user.total_storage,
            r.last_activity == user.last_activity,
    {
        UserResponse {
            wallet_address: user.wallet_address,
            created_at: user.created_at,
            total_files: user.total_files,
            total_storage: user.total_storage,
            last_activity: user.last_activity,
        }
    }
}

} // verus!
