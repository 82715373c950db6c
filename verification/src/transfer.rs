//! Library transfer files (backups and alias lists): their header rules,
//! how an import decides what to do with each item, what it reports, and
//! how an export describes each record.

use vstd::prelude::*;
use crate::media::{
    is_http_url, is_supported_media_type, normalize, normalize_error, opt_trimmed, opt_view, MediaInput, MediaRecord,
};
use crate::order::{is_label_normal_form, normalize_label_values};
use crate::storage::{
    file_hash_of, managed_extension, managed_file_name, sha256_hex, signature_ok, u128_text, validate_signature,
    MAX_IMPORT_BYTES,
};
use crate::text::{
    decimal, has_char, has_prefix, is_whitespace, lemma_decimal_value, lemma_trimmed_nonempty, lower, owned, push_str,
    str_eq, trim, trimmed, u64_text,
};

verus! {

/// The transfer format this library writes and reads.
pub const FORMAT_VERSION: u8 = 1;

/// Largest transfer file an import reads: 10 GB.
pub const MAX_TRANSFER_PAYLOAD_BYTES: u64 = 10737418240;

/// Largest preview an imported item may carry: 5 MB.
pub const MAX_IMPORTED_THUMBNAIL_BYTES: usize = 5242880;

/// A transfer file: a library backup (`library`) or an alias list
/// (`aliases`).
#[derive(Debug)]
pub struct TransferFile {
    pub version: u8,
    pub kind: String,
    pub items: Vec<TransferItem>,
}

/// One media item of a transfer file.
#[derive(Debug)]
pub struct TransferItem {
    pub title: String,
    pub source_kind: String,
    pub remote_url: Option<String>,
    pub external_url: Option<String>,
    pub hosted_url: Option<String>,
    pub original_filename: Option<String>,
    pub media_type: String,
    pub file_hash: Option<String>,
    pub notes: String,
    pub folder_paths: Vec<String>,
    pub tag_names: Vec<String>,
    pub alias_names: Vec<String>,
    pub media_base64: Option<String>,
    pub thumbnail_base64: Option<String>,
}

/// What an import would do.
#[derive(Debug)]
pub struct ImportPreview {
    pub kind: String,
    pub item_count: usize,
    pub conflict_count: usize,
    pub local_file_count: usize,
    pub remote_url_count: usize,
    pub conflicts: Vec<String>,
    pub alias_match_count: usize,
    pub alias_unmatched_count: usize,
    pub alias_unmatched: Vec<String>,
}

/// What an import did.
#[derive(Debug)]
pub struct ImportResult {
    pub imported: usize,
    pub skipped: usize,
    pub imported_files: usize,
    pub imported_links: usize,
    pub skipped_duplicates: usize,
    pub skipped_unsupported: usize,
    pub unmatched_aliases: Vec<String>,
    pub alias_matched_records: usize,
    pub aliases_added: usize,
    pub aliases_skipped: usize,
}

/// The transfer file a user picked.
#[derive(Debug)]
pub struct ImportFileSelection {
    pub path: String,
    pub file_name: String,
    pub size_bytes: u64,
}

/// The kinds of transfer file.
pub open spec fn is_transfer_kind(kind: Seq<char>) -> bool {
    kind == "library"@ || kind == "aliases"@
}

/// What is wrong with a transfer header, if anything.
pub open spec fn header_error(version: Option<u8>, kind: Seq<char>) -> Option<Seq<char>> {
    match version {
        None => Some("import file is missing version"@),
        Some(v) => if v != FORMAT_VERSION {
            Some("unsupported import version: "@ + decimal(v as nat))
        } else if !is_transfer_kind(kind) {
            Some("unsupported import type"@)
        } else {
            None
        },
    }
}

/// Checks the version and kind of a transfer file.
pub fn validate_transfer_header(version: Option<u8>, kind: &str) -> (r: Result<(), String>)
    ensures
        r is Ok <==> header_error(version, kind@) is None,
        r matches Err(e) ==> Some(e@) == header_error(version, kind@),
{
    match version {
        None => Err(owned("import file is missing version")),
        Some(v) => {
            if v != FORMAT_VERSION {
                let mut e = owned("unsupported import version: ");
                let d = u64_text(v as u64);
                push_str(&mut e, d.as_str());
                Err(e)
            } else if !(str_eq(kind, "library") || str_eq(kind, "aliases")) {
                Err(owned("unsupported import type"))
            } else {
                Ok(())
            }
        },
    }
}

/// Refuses a transfer payload larger than the import limit.
pub fn check_transfer_size(payload: &str) -> (r: Result<(), String>)
    ensures
        r is Ok <==> payload.len() <= MAX_TRANSFER_PAYLOAD_BYTES,
        r matches Err(e) ==> e@ == "import file is too large; maximum import size is 10 GB"@,
{
    let n = payload.len();
    if n as u64 > MAX_TRANSFER_PAYLOAD_BYTES {
        Err(owned("import file is too large; maximum import size is 10 GB"))
    } else {
        Ok(())
    }
}

/// Checks the header of a parsed transfer file (`parse_transfer` after the
/// JSON has been read): its version, then its kind.
pub fn check_transfer(transfer: TransferFile) -> (r: Result<TransferFile, String>)
    ensures
        transfer.version != FORMAT_VERSION ==> (r matches Err(e) && e@ == "unsupported import version: "@ + decimal(
            transfer.version as nat,
        )),
        transfer.version == FORMAT_VERSION && !is_transfer_kind(transfer.kind@) ==> (r matches Err(e) && e@
            == "unsupported import type"@),
        transfer.version == FORMAT_VERSION && is_transfer_kind(transfer.kind@) ==> r == Ok::<TransferFile, String>(transfer),
{
    match validate_transfer_header(Some(transfer.version), transfer.kind.as_str()) {
        Ok(()) => Ok(transfer),
        Err(e) => Err(e),
    }
}

/// What a streaming reader has seen of a transfer file's header.
#[derive(Debug)]
pub struct TransferHeader {
    pub version: Option<u8>,
    pub kind: Option<String>,
    pub items_seen: bool,
}

impl TransferHeader {
    /// Nothing seen yet.
    pub fn new() -> (r: TransferHeader)
        ensures
            r.version is None,
            r.kind is None,
            !r.items_seen,
    {
        TransferHeader { version: None, kind: None, items_seen: false }
    }

    /// The `version` field was read.
    pub fn on_version(&mut self, version: u8)
        ensures
            final(self).version == Some(version),
            final(self).kind == old(self).kind,
            final(self).items_seen == old(self).items_seen,
    {
        self.version = Some(version);
    }

    /// The `kind` field was read: only `library` and `aliases` are accepted.
    pub fn on_kind(&mut self, value: String) -> (r: Result<(), String>)
        ensures
            r is Ok <==> is_transfer_kind(value@),
            r matches Err(e) ==> e@ == "unsupported import type"@,
            r is Ok ==> final(self).kind is Some && final(self).kind->0@ == value@,
            r is Err ==> final(self).kind == old(self).kind,
            final(self).version == old(self).version,
            final(self).items_seen == old(self).items_seen,
    {
        if str_eq(value.as_str(), "library") || str_eq(value.as_str(), "aliases") {
            self.kind = Some(value);
            Ok(())
        } else {
            Err(owned("unsupported import type"))
        }
    }

    /// The `items` field begins: the kind must come before it, and the
    /// header must be valid. Returns the kind the items are read as.
    pub fn on_items(&self) -> (r: Result<String, String>)
        ensures
            self.kind is None ==> (r matches Err(e) && e@ == "import file must declare kind before items"@),
            self.kind is Some ==> match header_error(self.version, self.kind->0@) {
                Some(msg) => r matches Err(e) && e@ == msg,
                None => r matches Ok(k) && k@ == self.kind->0@,
            },
    {
        match &self.kind {
            None => Err(owned("import file must declare kind before items")),
            Some(k) => match validate_transfer_header(self.version, k.as_str()) {
                Ok(()) => Ok(k.clone()),
                Err(e) => Err(e),
            },
        }
    }

    /// The items have all been read.
    pub fn on_items_done(&mut self)
        ensures
            final(self).items_seen,
            final(self).version == old(self).version,
            final(self).kind == old(self).kind,
    {
        self.items_seen = true;
    }

    /// The end of the file: kind and items are required and the header must
    /// be valid. Returns the kind.
    pub fn finish(self) -> (r: Result<String, String>)
        ensures
            self.kind is None ==> (r matches Err(e) && e@ == "import file is missing kind"@),
            self.kind is Some ==> match header_error(self.version, self.kind->0@) {
                Some(msg) => r matches Err(e) && e@ == msg,
                None => if self.items_seen {
                    r matches Ok(k) && k@ == self.kind->0@
                } else {
                    r matches Err(e) && e@ == "import file is missing items"@
                },
            },
    {
        match self.kind {
            None => Err(owned("import file is missing kind")),
            Some(k) => {
                match validate_transfer_header(self.version, k.as_str()) {
                    Ok(()) => {},
                    Err(e) => {
                        return Err(e);
                    },
                }
                if !self.items_seen {
                    return Err(owned("import file is missing items"));
                }
                Ok(k)
            },
        }
    }
}

/// The conflict strategies an import accepts.
pub fn check_conflict_strategy(strategy: &str) -> (r: Result<(), String>)
    ensures
        r is Ok <==> (strategy@ == "skip"@ || strategy@ == "import_anyway"@),
        r matches Err(e) ==> e@ == "invalid conflict strategy"@,
{
    if str_eq(strategy, "skip") || str_eq(strategy, "import_anyway") {
        Ok(())
    } else {
        Err(owned("invalid conflict strategy"))
    }
}

/// How an import looks for an existing copy of an item.
#[derive(Debug)]
pub enum ConflictKey {
    /// A record with this file hash.
    Hash(String),
    /// A record with this remote link.
    RemoteUrl(String),
    /// The item cannot conflict.
    NoKey,
}

/// An item conflicts by its file hash when it has one, else by its
/// trimmed remote link, else not at all.
pub fn conflict_key(item: &TransferItem) -> (r: ConflictKey)
    ensures
        item.file_hash is Some ==> (r matches ConflictKey::Hash(h) && h@ == item.file_hash->0@),
        item.file_hash is None && item.remote_url is Some ==> (r matches ConflictKey::RemoteUrl(u) && u@ == trimmed(
            item.remote_url->0@,
        )),
        item.file_hash is None && item.remote_url is None ==> r is NoKey,
{
    match &item.file_hash {
        Some(h) => ConflictKey::Hash(h.clone()),
        None => match &item.remote_url {
            Some(u) => ConflictKey::RemoteUrl(trim(u.as_str())),
            None => ConflictKey::NoKey,
        },
    }
}

/// Which records an alias import may touch.
#[derive(Debug)]
pub enum ScopeCheck {
    /// Any record.
    Everything,
    /// Records in no folder.
    Uncategorized,
    /// Records in this folder.
    Folder(i64),
}

/// The scope of an alias import: no folder means everything, `-1` the
/// Uncategorized records, any other id that folder's members.
pub fn scope_check(folder_id: Option<i64>) -> (r: ScopeCheck)
    ensures
        folder_id is None ==> r is Everything,
        folder_id == Some(-1i64) ==> r is Uncategorized,
        folder_id is Some && folder_id->0 != -1 ==> r == ScopeCheck::Folder(folder_id->0),
{
    match folder_id {
        None => ScopeCheck::Everything,
        Some(f) => if f == -1 {
            ScopeCheck::Uncategorized
        } else {
            ScopeCheck::Folder(f)
        },
    }
}

/// The destination folder whose existence an import must confirm: none
/// when there is no destination, or when an alias list targets
/// Uncategorized (`-1`, which is not a folder row).
pub fn destination_to_check(kind: &str, folder_id: Option<i64>) -> (r: Option<i64>)
    ensures
        folder_id is None ==> r is None,
        folder_id is Some ==> if kind@ == "aliases"@ && folder_id->0 == -1 {
            r is None
        } else {
            r == folder_id
        },
{
    match folder_id {
        None => None,
        Some(f) => if str_eq(kind, "aliases") && f == -1 {
            None
        } else {
            Some(f)
        },
    }
}

/// What an import does with one item.
#[derive(Debug)]
pub enum ItemAction {
    /// An alias list item with no matching record in scope: its aliases
    /// are skipped.
    AliasUnmatched,
    /// An alias list item whose aliases go to this record.
    AliasMerge(i64),
    /// A library item that already exists and is skipped.
    SkipDuplicate,
    /// A library item that is imported.
    Import,
}

/// Decides what an import does with an item, from the record it conflicts
/// with (if any) and whether that record is in the alias import's scope.
pub fn item_action(kind: &str, conflict: Option<i64>, in_scope: bool, strategy: &str) -> (r: ItemAction)
    ensures
        kind@ == "aliases"@ ==> match conflict {
            Some(id) => if in_scope {
                r == ItemAction::AliasMerge(id)
            } else {
                r is AliasUnmatched
            },
            None => r is AliasUnmatched,
        },
        kind@ != "aliases"@ ==> if conflict is Some && strategy@ == "skip"@ {
            r is SkipDuplicate
        } else {
            r is Import
        },
{
    if str_eq(kind, "aliases") {
        match conflict {
            Some(id) => if in_scope {
                ItemAction::AliasMerge(id)
            } else {
                ItemAction::AliasUnmatched
            },
            None => ItemAction::AliasUnmatched,
        }
    } else if conflict.is_some() && str_eq(strategy, "skip") {
        ItemAction::SkipDuplicate
    } else {
        ItemAction::Import
    }
}

/// The running totals of an import.
#[derive(Debug)]
pub struct ImportTally {
    pub imported: usize,
    pub skipped: usize,
    pub imported_files: usize,
    pub imported_links: usize,
    pub skipped_duplicates: usize,
    pub unmatched_aliases: Vec<String>,
    pub alias_matched_records: usize,
    pub aliases_added: usize,
    pub aliases_skipped: usize,
}

impl ImportTally {
    pub fn new() -> (r: ImportTally)
        ensures
            r.imported == 0 && r.skipped == 0 && r.imported_files == 0 && r.imported_links == 0,
            r.skipped_duplicates == 0 && r.alias_matched_records == 0 && r.aliases_added == 0,
            r.aliases_skipped == 0 && r.unmatched_aliases@.len() == 0,
    {
        ImportTally {
            imported: 0,
            skipped: 0,
            imported_files: 0,
            imported_links: 0,
            skipped_duplicates: 0,
            unmatched_aliases: Vec::new(),
            alias_matched_records: 0,
            aliases_added: 0,
            aliases_skipped: 0,
        }
    }

    /// An alias list item matched nothing in scope: it is skipped with all
    /// of its (normalised) aliases.
    pub fn alias_unmatched(&mut self, title: String, alias_count: usize)
        requires
            old(self).skipped < usize::MAX,
            old(self).aliases_skipped + alias_count <= usize::MAX,
        ensures
            final(self).skipped == old(self).skipped + 1,
            final(self).aliases_skipped == old(self).aliases_skipped + alias_count,
            final(self).unmatched_aliases@ == old(self).unmatched_aliases@.push(title),
            final(self).imported == old(self).imported,
            final(self).imported_files == old(self).imported_files,
            final(self).imported_links == old(self).imported_links,
            final(self).skipped_duplicates == old(self).skipped_duplicates,
            final(self).alias_matched_records == old(self).alias_matched_records,
            final(self).aliases_added == old(self).aliases_added,
    {
        self.skipped = self.skipped + 1;
        self.aliases_skipped = self.aliases_skipped + alias_count;
        self.unmatched_aliases.push(title);
    }

    /// An alias list item matched a record.
    pub fn alias_matched(&mut self)
        requires
            old(self).alias_matched_records < usize::MAX,
        ensures
            final(self).alias_matched_records == old(self).alias_matched_records + 1,
            final(self).imported == old(self).imported,
            final(self).skipped == old(self).skipped,
            final(self).imported_files == old(self).imported_files,
            final(self).imported_links == old(self).imported_links,
            final(self).skipped_duplicates == old(self).skipped_duplicates,
            final(self).aliases_added == old(self).aliases_added,
            final(self).aliases_skipped == old(self).aliases_skipped,
            final(self).unmatched_aliases@ == old(self).unmatched_aliases@,
    {
        self.alias_matched_records = self.alias_matched_records + 1;
    }

    /// One alias was written: added when the record did not have it yet.
    pub fn alias_written(&mut self, added: bool)
        requires
            old(self).aliases_added < usize::MAX,
            old(self).aliases_skipped < usize::MAX,
        ensures
            added ==> final(self).aliases_added == old(self).aliases_added + 1 && final(self).aliases_skipped
                == old(self).aliases_skipped,
            !added ==> final(self).aliases_skipped == old(self).aliases_skipped + 1 && final(self).aliases_added
                == old(self).aliases_added,
            final(self).imported == old(self).imported,
            final(self).skipped == old(self).skipped,
            final(self).imported_files == old(self).imported_files,
            final(self).imported_links == old(self).imported_links,
            final(self).skipped_duplicates == old(self).skipped_duplicates,
            final(self).alias_matched_records == old(self).alias_matched_records,
            final(self).unmatched_aliases@ == old(self).unmatched_aliases@,
    {
        if added {
            self.aliases_added = self.aliases_added + 1;
        } else {
            self.aliases_skipped = self.aliases_skipped + 1;
        }
    }

    /// An alias list item was fully applied.
    pub fn alias_item_done(&mut self)
        requires
            old(self).imported < usize::MAX,
        ensures
            final(self).imported == old(self).imported + 1,
            final(self).skipped == old(self).skipped,
            final(self).imported_files == old(self).imported_files,
            final(self).imported_links == old(self).imported_links,
            final(self).skipped_duplicates == old(self).skipped_duplicates,
            final(self).alias_matched_records == old(self).alias_matched_records,
            final(self).aliases_added == old(self).aliases_added,
            final(self).aliases_skipped == old(self).aliases_skipped,
            final(self).unmatched_aliases@ == old(self).unmatched_aliases@,
    {
        self.imported = self.imported + 1;
    }

    /// A library item already existed and was skipped.
    pub fn duplicate_skipped(&mut self)
        requires
            old(self).skipped < usize::MAX,
            old(self).skipped_duplicates < usize::MAX,
        ensures
            final(self).skipped == old(self).skipped + 1,
            final(self).skipped_duplicates == old(self).skipped_duplicates + 1,
            final(self).imported == old(self).imported,
            final(self).imported_files == old(self).imported_files,
            final(self).imported_links == old(self).imported_links,
            final(self).alias_matched_records == old(self).alias_matched_records,
            final(self).aliases_added == old(self).aliases_added,
            final(self).aliases_skipped == old(self).aliases_skipped,
            final(self).unmatched_aliases@ == old(self).unmatched_aliases@,
    {
        self.skipped = self.skipped + 1;
        self.skipped_duplicates = self.skipped_duplicates + 1;
    }

    /// A library item was imported, as a local file or as a link.
    pub fn item_imported(&mut self, is_file: bool)
        requires
            old(self).imported < usize::MAX,
            old(self).imported_files < usize::MAX,
            old(self).imported_links < usize::MAX,
        ensures
            final(self).imported == old(self).imported + 1,
            is_file ==> final(self).imported_files == old(self).imported_files + 1 && final(self).imported_links
                == old(self).imported_links,
            !is_file ==> final(self).imported_links == old(self).imported_links + 1 && final(self).imported_files
                == old(self).imported_files,
            final(self).skipped == old(self).skipped,
            final(self).skipped_duplicates == old(self).skipped_duplicates,
            final(self).alias_matched_records == old(self).alias_matched_records,
            final(self).aliases_added == old(self).aliases_added,
            final(self).aliases_skipped == old(self).aliases_skipped,
            final(self).unmatched_aliases@ == old(self).unmatched_aliases@,
    {
        self.imported = self.imported + 1;
        if is_file {
            self.imported_files = self.imported_files + 1;
        } else {
            self.imported_links = self.imported_links + 1;
        }
    }

    /// The report of the finished import.
    pub fn finish(self) -> (r: ImportResult)
        ensures
            r.imported == self.imported,
            r.skipped == self.skipped,
            r.imported_files == self.imported_files,
            r.imported_links == self.imported_links,
            r.skipped_duplicates == self.skipped_duplicates,
            r.skipped_unsupported == 0,
            r.unmatched_aliases@ == self.unmatched_aliases@,
            r.alias_matched_records == self.alias_matched_records,
            r.aliases_added == self.aliases_added,
            r.aliases_skipped == self.aliases_skipped,
    {
        ImportResult {
            imported: self.imported,
            skipped: self.skipped,
            imported_files: self.imported_files,
            imported_links: self.imported_links,
            skipped_duplicates: self.skipped_duplicates,
            skipped_unsupported: 0,
            unmatched_aliases: self.unmatched_aliases,
            alias_matched_records: self.alias_matched_records,
            aliases_added: self.aliases_added,
            aliases_skipped: self.aliases_skipped,
        }
    }
}

/// What happened to one item of an import.
#[derive(Debug)]
pub enum ItemOutcome {
    /// An alias list item that matched nothing in scope, with the number
    /// of (normalised) aliases it carried.
    AliasesSkipped { title: String, alias_count: usize },
    /// An alias list item merged into a record: for each alias, whether
    /// the record did not have it yet.
    AliasesMerged { added: Vec<bool> },
    /// A library item that already existed and was skipped.
    Duplicate,
    /// A library item that was imported, as a local file or as a link.
    Imported { is_file: bool },
}

/// The aliases an item outcome accounts for.
pub open spec fn outcome_aliases(o: ItemOutcome) -> nat {
    match o {
        ItemOutcome::AliasesSkipped { alias_count, .. } => alias_count as nat,
        ItemOutcome::AliasesMerged { added } => added@.len(),
        _ => 0,
    }
}

/// The aliases a list of item outcomes accounts for.
pub open spec fn aliases_in(outcomes: Seq<ItemOutcome>) -> nat
    decreases outcomes.len(),
{
    if outcomes.len() == 0 {
        0
    } else {
        aliases_in(outcomes.drop_last()) + outcome_aliases(outcomes.last())
    }
}

/// An outcome that an import of this kind produces (`item_action`): alias
/// outcomes for alias lists, duplicate or imported for library files.
pub open spec fn fits(o: ItemOutcome, kind: Seq<char>) -> bool {
    if kind == "aliases"@ {
        o is AliasesSkipped || o is AliasesMerged
    } else {
        o is Duplicate || o is Imported
    }
}

/// The counts of an import of this kind agree with each other: a library
/// import counts each imported item as a file or a link and each skipped
/// item as a duplicate, and touches no alias count; an alias import counts
/// each imported item as a matched record and lists each skipped title.
pub open spec fn counts_agree(
    kind: Seq<char>,
    imported: usize,
    skipped: usize,
    imported_files: usize,
    imported_links: usize,
    skipped_duplicates: usize,
    unmatched: nat,
    alias_matched_records: usize,
    aliases_added: usize,
    aliases_skipped: usize,
) -> bool {
    if kind == "aliases"@ {
        &&& alias_matched_records == imported
        &&& unmatched == skipped
        &&& imported_files == 0 && imported_links == 0 && skipped_duplicates == 0
    } else {
        &&& imported_files + imported_links == imported
        &&& skipped_duplicates == skipped
        &&& alias_matched_records == 0 && unmatched == 0 && aliases_added == 0 && aliases_skipped == 0
    }
}

impl ImportTally {
    /// The counts agree for an import of this kind.
    pub open spec fn agrees(self, kind: Seq<char>) -> bool {
        counts_agree(
            kind,
            self.imported,
            self.skipped,
            self.imported_files,
            self.imported_links,
            self.skipped_duplicates,
            self.unmatched_aliases@.len(),
            self.alias_matched_records,
            self.aliases_added,
            self.aliases_skipped,
        )
    }

    /// No per-kind count exceeds the items it belongs to.
    pub open spec fn bounded(self) -> bool {
        &&& self.imported_files <= self.imported
        &&& self.imported_links <= self.imported
        &&& self.alias_matched_records <= self.imported
        &&& self.skipped_duplicates <= self.skipped
    }

    /// Counts one item by what happened to it: every item is either
    /// imported or skipped, and counts that agreed for the import's kind
    /// still agree.
    pub fn record_item(&mut self, outcome: &ItemOutcome)
        requires
            old(self).imported + old(self).skipped < usize::MAX,
            old(self).bounded(),
            old(self).aliases_added + old(self).aliases_skipped + outcome_aliases(*outcome) <= usize::MAX,
        ensures
            final(self).imported + final(self).skipped == old(self).imported + old(self).skipped + 1,
            final(self).aliases_added + final(self).aliases_skipped == old(self).aliases_added + old(self).aliases_skipped
                + outcome_aliases(*outcome),
            final(self).bounded(),
            forall|kind: Seq<char>| old(self).agrees(kind) && fits(*outcome, kind) ==> #[trigger] final(self).agrees(kind),
            match *outcome {
                ItemOutcome::AliasesSkipped { title, .. } => final(self).unmatched_aliases@ == old(
                    self,
                ).unmatched_aliases@.push(title) && final(self).skipped == old(self).skipped + 1,
                ItemOutcome::AliasesMerged { added } => final(self).imported == old(self).imported + 1
                    && final(self).alias_matched_records == old(self).alias_matched_records + 1,
                ItemOutcome::Duplicate => final(self).skipped == old(self).skipped + 1 && final(self).skipped_duplicates
                    == old(self).skipped_duplicates + 1,
                ItemOutcome::Imported { is_file } => final(self).imported == old(self).imported + 1 && (if is_file {
                    final(self).imported_files == old(self).imported_files + 1
                } else {
                    final(self).imported_links == old(self).imported_links + 1
                }),
            },
    {
        match outcome {
            ItemOutcome::AliasesSkipped { title, alias_count } => {
                self.alias_unmatched(title.clone(), *alias_count);
            },
            ItemOutcome::AliasesMerged { added } => {
                self.alias_matched();
                let ghost mid = *self;
                let mut k: usize = 0;
                while k < added.len()
                    invariant
                        k <= added@.len(),
                        self.aliases_added + self.aliases_skipped == mid.aliases_added + mid.aliases_skipped + k,
                        mid.aliases_added + mid.aliases_skipped + added@.len() <= usize::MAX,
                        self.imported == mid.imported,
                        self.skipped == mid.skipped,
                        self.imported_files == mid.imported_files,
                        self.imported_links == mid.imported_links,
                        self.skipped_duplicates == mid.skipped_duplicates,
                        self.alias_matched_records == mid.alias_matched_records,
                        self.unmatched_aliases@ == mid.unmatched_aliases@,
                    decreases added@.len() - k,
                {
                    self.alias_written(added[k]);
                    k = k + 1;
                }
                self.alias_item_done();
            },
            ItemOutcome::Duplicate => {
                self.duplicate_skipped();
            },
            ItemOutcome::Imported { is_file } => {
                self.item_imported(*is_file);
            },
        }
    }
}

/// The counts of a whole import, from what happened to each item in
/// order: every item is counted once as imported or skipped, every alias
/// once as added or skipped, and when every outcome fits the import's
/// kind, the counts agree for that kind.
pub fn tally_import(outcomes: &Vec<ItemOutcome>) -> (r: ImportResult)
    requires
        outcomes@.len() + aliases_in(outcomes@) < usize::MAX,
    ensures
        r.imported + r.skipped == outcomes@.len(),
        r.aliases_added + r.aliases_skipped == aliases_in(outcomes@),
        r.skipped_unsupported == 0,
        forall|kind: Seq<char>|
            (forall|i: int| 0 <= i < outcomes@.len() ==> fits(#[trigger] outcomes@[i], kind)) ==> #[trigger] counts_agree(
                kind,
                r.imported,
                r.skipped,
                r.imported_files,
                r.imported_links,
                r.skipped_duplicates,
                r.unmatched_aliases@.len(),
                r.alias_matched_records,
                r.aliases_added,
                r.aliases_skipped,
            ),
{
    let mut tally = ImportTally::new();
    let mut k: usize = 0;
    while k < outcomes.len()
        invariant
            k <= outcomes@.len(),
            outcomes@.len() + aliases_in(outcomes@) < usize::MAX,
            tally.imported + tally.skipped == k,
            tally.aliases_added + tally.aliases_skipped == aliases_in(outcomes@.take(k as int)),
            tally.bounded(),
            forall|kind: Seq<char>|
                (forall|i: int| 0 <= i < k ==> fits(#[trigger] outcomes@[i], kind)) ==> #[trigger] tally.agrees(kind),
        decreases outcomes@.len() - k,
    {
        proof {
            lemma_aliases_in_prefix(outcomes@, k as int);
            lemma_aliases_in_prefix(outcomes@, k + 1);
            assert(outcomes@.take(outcomes@.len() as int) == outcomes@);
        }
        let ghost before = tally;
        tally.record_item(&outcomes[k]);
        proof {
            assert forall|kind: Seq<char>|
                (forall|i: int| 0 <= i < k + 1 ==> fits(#[trigger] outcomes@[i], kind)) implies #[trigger] tally.agrees(kind) by {
                assert(fits(outcomes@[k as int], kind));
                assert(before.agrees(kind));
            }
        }
        k = k + 1;
    }
    proof {
        assert(outcomes@.take(k as int) == outcomes@);
    }
    let ghost last = tally;
    let r = tally.finish();
    proof {
        assert forall|kind: Seq<char>|
            (forall|i: int| 0 <= i < outcomes@.len() ==> fits(#[trigger] outcomes@[i], kind)) implies #[trigger] counts_agree(
                kind,
                r.imported,
                r.skipped,
                r.imported_files,
                r.imported_links,
                r.skipped_duplicates,
                r.unmatched_aliases@.len(),
                r.alias_matched_records,
                r.aliases_added,
                r.aliases_skipped,
            ) by {
            assert(last.agrees(kind));
        }
    }
    r
}

/// The aliases of a prefix grow one outcome at a time and never exceed
/// those of the whole list.
pub proof fn lemma_aliases_in_prefix(outcomes: Seq<ItemOutcome>, k: int)
    requires
        0 <= k <= outcomes.len(),
    ensures
        k < outcomes.len() ==> aliases_in(outcomes.take(k + 1)) == aliases_in(outcomes.take(k)) + outcome_aliases(outcomes[k]),
        aliases_in(outcomes.take(k)) <= aliases_in(outcomes),
    decreases outcomes.len() - k,
{
    if k < outcomes.len() {
        assert(outcomes.take(k + 1).drop_last() == outcomes.take(k));
        lemma_aliases_in_prefix(outcomes, k + 1);
    } else {
        assert(outcomes.take(k) == outcomes);
    }
}

/// How many titles an import preview lists at most when it reads a file.
pub const PREVIEW_LIST_LIMIT: usize = 100;

/// The running totals of an import preview. When `capped`, the lists of
/// titles stop at `PREVIEW_LIST_LIMIT` entries while the counts go on.
#[derive(Debug)]
pub struct PreviewTally {
    pub capped: bool,
    pub item_count: usize,
    pub conflict_count: usize,
    pub local_file_count: usize,
    pub remote_url_count: usize,
    pub conflicts: Vec<String>,
    pub alias_match_count: usize,
    pub alias_unmatched_count: usize,
    pub alias_unmatched: Vec<String>,
}

/// The list after adding `title`, as a preview keeps it.
pub open spec fn listed(list: Seq<String>, title: String, capped: bool) -> Seq<String> {
    if capped && list.len() >= PREVIEW_LIST_LIMIT {
        list
    } else {
        list.push(title)
    }
}

impl PreviewTally {
    /// Every count is at most the number of items seen.
    pub open spec fn well_formed(&self) -> bool {
        &&& self.local_file_count + self.remote_url_count == self.item_count
        &&& self.conflict_count <= self.item_count
        &&& self.alias_match_count + self.alias_unmatched_count <= self.item_count
    }

    pub fn new(capped: bool) -> (r: PreviewTally)
        ensures
            r.well_formed(),
            r.capped == capped,
            r.item_count == 0 && r.conflict_count == 0 && r.local_file_count == 0 && r.remote_url_count == 0,
            r.alias_match_count == 0 && r.alias_unmatched_count == 0,
            r.conflicts@.len() == 0 && r.alias_unmatched@.len() == 0,
    {
        PreviewTally {
            capped,
            item_count: 0,
            conflict_count: 0,
            local_file_count: 0,
            remote_url_count: 0,
            conflicts: Vec::new(),
            alias_match_count: 0,
            alias_unmatched_count: 0,
            alias_unmatched: Vec::new(),
        }
    }

    /// Adds one item: its source kind, and whether it matches an existing
    /// record.
    pub fn record(&mut self, kind: &str, source_kind: &str, title: String, matched: bool)
        requires
            old(self).well_formed(),
            old(self).item_count < usize::MAX,
        ensures
            final(self).well_formed(),
            final(self).capped == old(self).capped,
            final(self).item_count == old(self).item_count + 1,
            final(self).local_file_count == old(self).local_file_count + if source_kind@ == "local_file"@ {
                1int
            } else {
                0int
            },
            final(self).remote_url_count == old(self).remote_url_count + if source_kind@ == "local_file"@ {
                0int
            } else {
                1int
            },
            final(self).conflict_count == old(self).conflict_count + if matched {
                1int
            } else {
                0int
            },
            final(self).conflicts@ == if matched {
                listed(old(self).conflicts@, title, old(self).capped)
            } else {
                old(self).conflicts@
            },
            final(self).alias_match_count == old(self).alias_match_count + if kind@ == "aliases"@ && matched {
                1int
            } else {
                0int
            },
            final(self).alias_unmatched_count == old(self).alias_unmatched_count + if kind@ == "aliases"@ && !matched {
                1int
            } else {
                0int
            },
            final(self).alias_unmatched@ == if kind@ == "aliases"@ && !matched {
                listed(old(self).alias_unmatched@, title, old(self).capped)
            } else {
                old(self).alias_unmatched@
            },
    {
        self.item_count = self.item_count + 1;
        if str_eq(source_kind, "local_file") {
            self.local_file_count = self.local_file_count + 1;
        } else {
            self.remote_url_count = self.remote_url_count + 1;
        }
        if matched {
            self.conflict_count = self.conflict_count + 1;
            if !(self.capped && self.conflicts.len() >= PREVIEW_LIST_LIMIT) {
                self.conflicts.push(title.clone());
            }
        }
        if str_eq(kind, "aliases") {
            if matched {
                self.alias_match_count = self.alias_match_count + 1;
            } else {
                self.alias_unmatched_count = self.alias_unmatched_count + 1;
                if !(self.capped && self.alias_unmatched.len() >= PREVIEW_LIST_LIMIT) {
                    self.alias_unmatched.push(title);
                }
            }
        }
    }

    /// The preview of a transfer file of the given kind.
    pub fn finish(self, kind: String) -> (r: ImportPreview)
        ensures
            r.kind@ == kind@,
            r.item_count == self.item_count,
            r.conflict_count == self.conflict_count,
            r.local_file_count == self.local_file_count,
            r.remote_url_count == self.remote_url_count,
            r.conflicts@ == self.conflicts@,
            r.alias_match_count == self.alias_match_count,
            r.alias_unmatched_count == self.alias_unmatched_count,
            r.alias_unmatched@ == self.alias_unmatched@,
    {
        ImportPreview {
            kind,
            item_count: self.item_count,
            conflict_count: self.conflict_count,
            local_file_count: self.local_file_count,
            remote_url_count: self.remote_url_count,
            conflicts: self.conflicts,
            alias_match_count: self.alias_match_count,
            alias_unmatched_count: self.alias_unmatched_count,
            alias_unmatched: self.alias_unmatched,
        }
    }
}

/// How many items are local files.
pub open spec fn count_local(items: Seq<TransferItem>) -> nat
    decreases items.len(),
{
    if items.len() == 0 {
        0
    } else {
        count_local(items.drop_last()) + if items.last().source_kind@ == "local_file"@ { 1nat } else { 0nat }
    }
}

/// How many entries of `flags` equal `want`.
pub open spec fn count_flag(flags: Seq<bool>, want: bool) -> nat
    decreases flags.len(),
{
    if flags.len() == 0 {
        0
    } else {
        count_flag(flags.drop_last(), want) + if flags.last() == want { 1nat } else { 0nat }
    }
}

/// The titles of the items whose flag equals `want`, in order.
pub open spec fn titles_where(items: Seq<TransferItem>, flags: Seq<bool>, want: bool) -> Seq<String>
    decreases items.len(),
{
    if items.len() == 0 || flags.len() == 0 {
        Seq::empty()
    } else {
        let prev = titles_where(items.drop_last(), flags.drop_last(), want);
        if flags.last() == want {
            prev.push(items.last().title)
        } else {
            prev
        }
    }
}

/// The preview of a whole transfer file, given which of its items match
/// an existing record. Lists are not shortened.
pub fn preview_transfer(transfer: TransferFile, matched: &Vec<bool>) -> (r: ImportPreview)
    requires
        matched@.len() == transfer.items@.len(),
    ensures
        r.kind@ == transfer.kind@,
        r.item_count == transfer.items@.len(),
        r.conflict_count == count_flag(matched@, true),
        r.conflicts@ == titles_where(transfer.items@, matched@, true),
        r.local_file_count == count_local(transfer.items@),
        r.remote_url_count == transfer.items@.len() - count_local(transfer.items@),
        transfer.kind@ == "aliases"@ ==> r.alias_match_count == count_flag(matched@, true) && r.alias_unmatched@
            == titles_where(transfer.items@, matched@, false) && r.alias_unmatched_count == r.alias_unmatched@.len(),
        transfer.kind@ != "aliases"@ ==> r.alias_match_count == 0 && r.alias_unmatched_count == 0
            && r.alias_unmatched@.len() == 0,
{
    let mut tally = PreviewTally::new(false);
    let ghost items = transfer.items@;
    let mut k: usize = 0;
    while k < transfer.items.len()
        invariant
            k <= items.len(),
            items == transfer.items@,
            matched@.len() == items.len(),
            tally.well_formed(),
            !tally.capped,
            tally.item_count == k,
            tally.conflict_count == count_flag(matched@.take(k as int), true),
            tally.conflicts@ == titles_where(items.take(k as int), matched@.take(k as int), true),
            tally.local_file_count == count_local(items.take(k as int)),
            tally.remote_url_count == k - count_local(items.take(k as int)),
            transfer.kind@ == "aliases"@ ==> tally.alias_match_count == count_flag(matched@.take(k as int), true)
                && tally.alias_unmatched@ == titles_where(items.take(k as int), matched@.take(k as int), false)
                && tally.alias_unmatched_count == tally.alias_unmatched@.len(),
            transfer.kind@ != "aliases"@ ==> tally.alias_match_count == 0 && tally.alias_unmatched_count == 0
                && tally.alias_unmatched@.len() == 0,
        decreases items.len() - k,
    {
        let item = &transfer.items[k];
        proof {
            assert(items.take(k + 1).drop_last() == items.take(k as int));
            assert(matched@.take(k + 1).drop_last() == matched@.take(k as int));
            assert(items.take(k + 1).last() == items[k as int]);
            assert(matched@.take(k + 1).last() == matched@[k as int]);
        }
        tally.record(transfer.kind.as_str(), item.source_kind.as_str(), item.title.clone(), matched[k]);
        k = k + 1;
    }
    proof {
        assert(items.take(k as int) == items);
        assert(matched@.take(k as int) == matched@);
    }
    tally.finish(transfer.kind)
}

/// The pieces of `s` between occurrences of ` / `, found left to right
/// without overlap (`str::split(" / ")`), `cur` being the start of the
/// first piece.
pub open spec fn path_pieces(s: Seq<char>, cur: Seq<char>) -> Seq<Seq<char>>
    decreases s.len(),
{
    if s.len() == 0 {
        seq![cur]
    } else if has_prefix(s, seq![' ', '/', ' ']) {
        seq![cur] + path_pieces(s.skip(3), Seq::empty())
    } else {
        path_pieces(s.drop_first(), cur.push(s[0]))
    }
}

/// The pieces, trimmed, without the blank ones.
pub open spec fn kept_pieces(pieces: Seq<Seq<char>>) -> Seq<Seq<char>>
    decreases pieces.len(),
{
    if pieces.len() == 0 {
        Seq::empty()
    } else {
        let prev = kept_pieces(pieces.drop_last());
        if trimmed(pieces.last()).len() > 0 {
            prev.push(trimmed(pieces.last()))
        } else {
            prev
        }
    }
}

/// The folder names along a transfer folder path such as
/// `Parent / Child`: the pieces between ` / `, trimmed, blank ones dropped.
pub open spec fn path_components(path: Seq<char>) -> Seq<Seq<char>> {
    kept_pieces(path_pieces(path, Seq::empty()))
}

pub proof fn lemma_kept_pieces_append(a: Seq<Seq<char>>, b: Seq<Seq<char>>)
    ensures
        kept_pieces(a + b) == kept_pieces(a) + kept_pieces(b),
    decreases b.len(),
{
    if b.len() == 0 {
        assert(a + b == a);
    } else {
        lemma_kept_pieces_append(a, b.drop_last());
        assert((a + b).drop_last() == a + b.drop_last());
        assert((a + b).last() == b.last());
    }
}

/// Splits a transfer folder path into folder names.
pub fn folder_path_components(path: &str) -> (r: Vec<String>)
    ensures
        r.deep_view() == path_components(path@),
{
    let v = crate::text::chars_of(path);
    let n = v.len();
    let mut out: Vec<String> = Vec::new();
    let mut cur: Vec<char> = Vec::new();
    let mut i: usize = 0;
    proof {
        assert(path@.skip(0) == path@);
    }
    while i < n
        invariant
            i <= n,
            n == v@.len(),
            v@ == path@,
            path_components(path@) == out.deep_view() + kept_pieces(path_pieces(path@.skip(i as int), cur@)),
        decreases n - i,
    {
        let ghost rest = path@.skip(i as int);
        if n - i >= 3 && v[i] == ' ' && v[i + 1] == '/' && v[i + 2] == ' ' {
            proof {
                assert(rest.take(3) == seq![' ', '/', ' ']);
                assert(has_prefix(rest, seq![' ', '/', ' ']));
                assert(rest.skip(3) == path@.skip(i + 3));
                lemma_kept_pieces_append(seq![cur@], path_pieces(rest.skip(3), Seq::empty()));
            }
            let piece = crate::text::string_from_range(&cur, 0, cur.len());
            assert(cur@.subrange(0, cur@.len() as int) == cur@);
            let t = trim(piece.as_str());
            let ghost before = out.deep_view();
            if t.as_str().unicode_len() > 0 {
                out.push(t);
                assert(out.deep_view() =~= before.push(trimmed(cur@)));
            }
            proof {
                assert(kept_pieces(seq![cur@]) == if trimmed(cur@).len() > 0 { seq![trimmed(cur@)] } else { Seq::<Seq<char>>::empty() }) by {
                    assert(seq![cur@].drop_last() == Seq::<Seq<char>>::empty());
                    assert(seq![cur@].last() == cur@);
                    assert(kept_pieces(Seq::<Seq<char>>::empty()) == Seq::<Seq<char>>::empty());
                }
            }
            cur = Vec::new();
            i = i + 3;
        } else {
            proof {
                if has_prefix(rest, seq![' ', '/', ' ']) {
                    assert(rest.take(3)[0] == v@[i as int]);
                    assert(rest.take(3)[1] == v@[i + 1]);
                    assert(rest.take(3)[2] == v@[i + 2]);
                }
                assert(rest.drop_first() == path@.skip(i + 1));
                assert(rest[0] == v@[i as int]);
            }
            cur.push(v[i]);
            i = i + 1;
        }
    }
    proof {
        assert(path@.skip(i as int).len() == 0);
        assert(kept_pieces(seq![cur@]) == if trimmed(cur@).len() > 0 { seq![trimmed(cur@)] } else { Seq::<Seq<char>>::empty() }) by {
            assert(seq![cur@].drop_last() == Seq::<Seq<char>>::empty());
            assert(seq![cur@].last() == cur@);
            assert(kept_pieces(Seq::<Seq<char>>::empty()) == Seq::<Seq<char>>::empty());
        }
    }
    let piece = crate::text::string_from_range(&cur, 0, cur.len());
    assert(cur@.subrange(0, cur@.len() as int) == cur@);
    let t = trim(piece.as_str());
    let ghost before = out.deep_view();
    if t.as_str().unicode_len() > 0 {
        out.push(t);
        assert(out.deep_view() =~= before.push(trimmed(cur@)));
    }
    out
}

/// Adds the import destination to the folders of an item, unless it is
/// already among them.
pub fn add_destination(folder_ids: Vec<i64>, destination: Option<i64>) -> (r: Vec<i64>)
    ensures
        r@ == match destination {
            Some(d) => if folder_ids@.contains(d) {
                folder_ids@
            } else {
                folder_ids@.push(d)
            },
            None => folder_ids@,
        },
{
    let mut ids = folder_ids;
    match destination {
        Some(d) => {
            let mut k: usize = 0;
            let mut found = false;
            while k < ids.len()
                invariant
                    k <= ids@.len(),
                    found <==> exists|i: int| 0 <= i < k && ids@[i] == d,
                decreases ids@.len() - k,
            {
                if ids[k] == d {
                    found = true;
                }
                k = k + 1;
            }
            if !found {
                ids.push(d);
            }
        },
        None => {},
    }
    ids
}

/// A name for the standard Base64 text of some bytes.
pub uninterp spec fn base64_text(bytes: Seq<u8>) -> Seq<char>;

/// The standard Base64 encoding (with padding) of the bytes, computed by
/// the `base64` crate's `STANDARD` engine. The contract only names it.
#[verifier::external_body]
pub(crate) fn encode_base64(bytes: &[u8]) -> (r: String)
    ensures
        r@ == base64_text(bytes@),
{
    base64::Engine::encode(&base64::engine::general_purpose::STANDARD, bytes)
}

/// A name for what the standard Base64 decoder makes of some text: the
/// bytes, or the text of its error.
pub uninterp spec fn base64_decoded(text: Seq<char>) -> Result<Seq<u8>, Seq<char>>;

/// Decodes standard Base64 with the `base64` crate's `STANDARD` engine;
/// an error comes back as its display text. Besides naming the result,
/// the contract states that text the same engine encoded decodes to the
/// bytes it was made from.
#[verifier::external_body]
pub(crate) fn decode_base64(text: &str) -> (r: Result<Vec<u8>, String>)
    ensures
        r is Ok ==> base64_decoded(text@) == Ok::<Seq<u8>, Seq<char>>(r->Ok_0@),
        r is Err ==> base64_decoded(text@) == Err::<Seq<u8>, Seq<char>>(r->Err_0@),
        r is Ok ==> forall|b: Seq<u8>| text@ == base64_text(b) ==> r->Ok_0@ == b,
        r is Err ==> forall|b: Seq<u8>| text@ != base64_text(b),
{
    base64::Engine::decode(&base64::engine::general_purpose::STANDARD, text).map_err(|error| error.to_string())
}

/// The record fields an imported item leads to, checked the way
/// `normalize` checks them; `storage` is the managed file of a local item.
pub open spec fn item_fields_error(item: TransferItem, storage: Option<Seq<char>>) -> Option<Seq<char>> {
    crate::media::fields_error(
        item.title@,
        item.source_kind@,
        opt_view(item.remote_url),
        if item.external_url is Some {
            opt_view(item.external_url)
        } else {
            opt_view(item.hosted_url)
        },
        storage,
        item.media_type@,
    )
}

/// The managed file name of a local item imported under `token`.
pub open spec fn imported_file_name(token: u128, media_type: Seq<char>) -> Seq<char> {
    decimal(token as nat) + "."@ + managed_extension(media_type)
}

/// Why an item of a library transfer cannot be imported, if it cannot.
pub open spec fn library_item_error(item: TransferItem, token: u128) -> Option<Seq<char>> {
    if item.source_kind@ == "local_file"@ {
        match item.media_base64 {
            None => Some("local item is missing media data"@),
            Some(m) => match base64_decoded(m@) {
                Err(e) => Some("invalid local media data: "@ + e),
                Ok(bytes) => if bytes.len() == 0 || bytes.len() > MAX_IMPORT_BYTES {
                    Some("imported local file must be between 1 byte and 50 MB"@)
                } else if !signature_ok(item.media_type@, bytes) {
                    Some("file contents do not match a supported image format"@)
                } else {
                    let storage = Some(imported_file_name(token, item.media_type@));
                    match item.thumbnail_base64 {
                        None => item_fields_error(item, storage),
                        Some(t) => match base64_decoded(t@) {
                            Err(e) => Some("invalid thumbnail data: "@ + e),
                            Ok(thumb) => if thumb.len() > MAX_IMPORTED_THUMBNAIL_BYTES {
                                Some("imported thumbnail exceeds 5 MB"@)
                            } else {
                                item_fields_error(item, storage)
                            },
                        },
                    }
                },
            },
        }
    } else {
        item_fields_error(item, None)
    }
}

/// The name of a managed file to write.
pub open spec fn file_name(f: (String, Vec<u8>)) -> Seq<char> {
    f.0@
}

/// The bytes of a managed file to write.
pub open spec fn file_bytes(f: (String, Vec<u8>)) -> Seq<u8> {
    f.1@
}

/// What importing one library item writes: the normalised record, and the
/// managed files (name and bytes) of a local item.
#[derive(Debug)]
pub struct PreparedItem {
    pub input: MediaInput,
    pub media_file: Option<(String, Vec<u8>)>,
    pub thumbnail_file: Option<(String, Vec<u8>)>,
}

/// Decodes and checks a library item and builds the record it becomes:
/// a local item's media must decode, fit the size limit and carry its
/// format's signature, and it is stored under the token with its hash;
/// its preview must decode and fit 5 MB. The record then goes through
/// `normalize`.
#[verifier::rlimit(40)]
pub fn prepare_library_item(item: TransferItem, folder_ids: Vec<i64>, token: u128) -> (r: Result<PreparedItem, String>)
    ensures
        r is Err <==> library_item_error(item, token) is Some,
        r matches Err(e) ==> Some(e@) == library_item_error(item, token),
        forall|b: Seq<u8>|
            item.source_kind@ == "local_file"@ && item.media_base64 is Some && item.media_base64->0@ == base64_text(b)
                ==> base64_decoded(item.media_base64->0@) == Ok::<Seq<u8>, Seq<char>>(b),
        forall|b: Seq<u8>|
            item.source_kind@ == "local_file"@ && item.thumbnail_base64 is Some && item.thumbnail_base64->0@
                == base64_text(b) && item.media_base64 is Some && base64_decoded(item.media_base64->0@) is Ok && signature_ok(
                item.media_type@,
                base64_decoded(item.media_base64->0@)->Ok_0,
            ) && 0 < base64_decoded(item.media_base64->0@)->Ok_0.len() <= MAX_IMPORT_BYTES ==> base64_decoded(
                item.thumbnail_base64->0@,
            ) == Ok::<Seq<u8>, Seq<char>>(b),
        r matches Ok(p) ==> {
            &&& p.input.title@ == trimmed(item.title@)
            &&& p.input.source_kind@ == item.source_kind@
            &&& p.input.media_type@ == lower(trimmed(item.media_type@))
            &&& opt_view(p.input.remote_url) == opt_trimmed(item.remote_url)
            &&& opt_view(p.input.external_url) == opt_trimmed(
                if item.external_url is Some {
                    item.external_url
                } else {
                    item.hosted_url
                },
            )
            &&& opt_view(p.input.original_filename) == opt_trimmed(item.original_filename)
            &&& p.input.notes@ == trimmed(item.notes@)
            &&& p.input.folder_names@.len() == 0
            &&& crate::order::is_id_normal_form(p.input.folder_ids@, folder_ids@)
            &&& is_label_normal_form(p.input.tag_names.deep_view(), item.tag_names.deep_view())
            &&& is_label_normal_form(p.input.alias_names.deep_view(), item.alias_names.deep_view())
            &&& if item.source_kind@ == "local_file"@ {
                &&& item.media_base64 is Some
                &&& base64_decoded(item.media_base64->0@) is Ok
                &&& p.media_file is Some
                &&& file_name(p.media_file->0) == imported_file_name(token, item.media_type@)
                &&& Ok::<Seq<u8>, Seq<char>>(file_bytes(p.media_file->0)) == base64_decoded(item.media_base64->0@)
                &&& opt_view(p.input.storage_filename) == Some(imported_file_name(token, item.media_type@))
                &&& opt_view(p.input.file_hash) == Some(sha256_hex(file_bytes(p.media_file->0)))
                &&& match item.thumbnail_base64 {
                    Some(t) => p.thumbnail_file is Some && file_name(p.thumbnail_file->0) == decimal(token as nat)
                        + ".thumb.webp"@ && Ok::<Seq<u8>, Seq<char>>(file_bytes(p.thumbnail_file->0)) == base64_decoded(t@),
                    None => p.thumbnail_file is None,
                }
            } else {
                &&& p.media_file is None
                &&& p.thumbnail_file is None
                &&& p.input.storage_filename is None
                &&& opt_view(p.input.file_hash) == opt_trimmed(item.file_hash)
            }
        },
{
    let ghost it = item;
    let is_local = str_eq(item.source_kind.as_str(), "local_file");
    let mut media_file: Option<(String, Vec<u8>)> = None;
    let mut thumbnail_file: Option<(String, Vec<u8>)> = None;
    let mut storage_filename: Option<String> = None;
    let mut hash: Option<String> = None;
    if is_local {
        let encoded = match &item.media_base64 {
            Some(m) => m,
            None => {
                return Err(owned("local item is missing media data"));
            },
        };
        let bytes = match decode_base64(encoded.as_str()) {
            Ok(b) => b,
            Err(e) => {
                let mut msg = owned("invalid local media data: ");
                push_str(&mut msg, e.as_str());
                return Err(msg);
            },
        };
        if bytes.len() == 0 || bytes.len() > MAX_IMPORT_BYTES {
            return Err(owned("imported local file must be between 1 byte and 50 MB"));
        }
        match validate_signature(item.media_type.as_str(), bytes.as_slice()) {
            Ok(()) => {},
            Err(e) => {
                return Err(e);
            },
        }
        let digest = file_hash_of(bytes.as_slice());
        let name = managed_file_name(token, item.media_type.as_str(), ".");
        match &item.thumbnail_base64 {
            Some(t) => {
                let thumb = match decode_base64(t.as_str()) {
                    Ok(b) => b,
                    Err(e) => {
                        let mut msg = owned("invalid thumbnail data: ");
                        push_str(&mut msg, e.as_str());
                        return Err(msg);
                    },
                };
                if thumb.len() > MAX_IMPORTED_THUMBNAIL_BYTES {
                    return Err(owned("imported thumbnail exceeds 5 MB"));
                }
                let mut thumb_name = u128_text(token);
                push_str(&mut thumb_name, ".thumb.webp");
                thumbnail_file = Some((thumb_name, thumb));
            },
            None => {},
        }
        proof {
            lemma_decimal_value(token as nat);
            assert(name@[0] == decimal(token as nat)[0]);
            assert(!crate::text::is_ws(name@[0]));
            reveal_strlit("gif");
            reveal_strlit("png");
            reveal_strlit("jpg");
            reveal_strlit("jpeg");
            reveal_strlit("webp");
            assert(name@.last() == managed_extension(item.media_type@).last());
            crate::text::lemma_trimmed_unchanged(name@);
            assert(digest@[0] == digest@[0]);
            assert(crate::storage::is_lower_hex(digest@[63]));
            assert(digest@.last() == digest@[63]);
            crate::text::lemma_trimmed_unchanged(digest@);
        }
        storage_filename = Some(name.clone());
        hash = Some(digest);
        media_file = Some((name, bytes));
    }
    let external = match item.external_url {
        Some(e) => Some(e),
        None => item.hosted_url,
    };
    let record = MediaInput {
        title: item.title,
        source_kind: item.source_kind,
        remote_url: item.remote_url,
        external_url: external,
        storage_filename,
        original_filename: item.original_filename,
        media_type: item.media_type,
        file_hash: match hash {
            Some(h) => Some(h),
            None => item.file_hash,
        },
        notes: item.notes,
        folder_names: Vec::new(),
        folder_ids,
        tag_names: item.tag_names,
        alias_names: item.alias_names,
    };
    let ghost m = record;
    proof {
        assert(opt_view(m.external_url) == if it.external_url is Some {
            opt_view(it.external_url)
        } else {
            opt_view(it.hosted_url)
        });
        assert(normalize_error(m) == item_fields_error(it, opt_view(m.storage_filename)));
    }
    match normalize(record) {
        Ok(input) => {
            proof {
                assert(input.folder_names.deep_view().len() == 0) by {
                    let d = m.folder_names.deep_view();
                    assert(d.len() == 0);
                    if input.folder_names.deep_view().len() > 0 {
                        let x = input.folder_names.deep_view()[0];
                        assert(crate::order::cleaned_labels(d).len() == 0);
                    }
                }
            }
            Ok(PreparedItem { input, media_file, thumbnail_file })
        },
        Err(e) => Err(e),
    }
}

/// A record goes into an export of the given kind: it is in the exported
/// scope (when there is one), and an alias export only takes records with
/// aliases.
pub open spec fn exported(record: MediaRecord, kind: Seq<char>, scoped_ids: Option<Seq<i64>>) -> bool {
    &&& match scoped_ids {
        Some(ids) => ids.contains(record.id),
        None => true,
    }
    &&& !(kind == "aliases"@ && record.alias_names@.len() == 0)
}

/// The view of an optional id list.
pub open spec fn ids_view(o: Option<Vec<i64>>) -> Option<Seq<i64>> {
    match o {
        Some(v) => Some(v@),
        None => None,
    }
}

/// What an export takes, for every kind: never a record outside the
/// folder scope, never an alias-less record in an alias list, and every
/// other record in scope (every record when there is no scope).
pub proof fn lemma_export_scope(record: MediaRecord, kind: Seq<char>, scoped_ids: Option<Seq<i64>>)
    ensures
        scoped_ids matches Some(ids) && !ids.contains(record.id) ==> !exported(record, kind, scoped_ids),
        kind == "aliases"@ && record.alias_names@.len() == 0 ==> !exported(record, kind, scoped_ids),
        (scoped_ids is None || scoped_ids->0.contains(record.id)) && (kind != "aliases"@ || record.alias_names@.len() > 0)
            ==> exported(record, kind, scoped_ids),
{
}

/// `exported` for executable code.
pub fn export_includes(record: &MediaRecord, kind: &str, scoped_ids: &Option<Vec<i64>>) -> (r: bool)
    ensures
        r == exported(*record, kind@, ids_view(*scoped_ids)),
        scoped_ids matches Some(ids) && !ids@.contains(record.id) ==> !r,
        kind@ == "aliases"@ && record.alias_names@.len() == 0 ==> !r,
{
    match scoped_ids {
        Some(ids) => {
            if !crate::duplicates::vec_contains_i64(ids, record.id) {
                return false;
            }
        },
        None => {},
    }
    !(str_eq(kind, "aliases") && record.alias_names.len() == 0)
}

/// A library export carries the managed files of local records.
pub fn needs_managed_files(record: &MediaRecord, kind: &str) -> (r: bool)
    ensures
        r == (kind@ == "library"@ && record.source_kind@ == "local_file"@),
{
    str_eq(kind, "library") && str_eq(record.source_kind.as_str(), "local_file")
}

/// The bytes of a local record's managed files.
#[derive(Debug)]
pub struct ManagedFiles {
    pub media: Vec<u8>,
    pub thumbnail: Option<Vec<u8>>,
}

/// How an export describes a record: its identity and links always, its
/// notes, folders and tags only in a library export, its aliases always,
/// and the Base64 text of its files when they were read for a local record
/// of a library export. Other items carry no file data.
pub open spec fn describes(item: TransferItem, record: MediaRecord, kind: Seq<char>, files: Option<ManagedFiles>) -> bool {
    &&& item.title == record.title
    &&& item.source_kind == record.source_kind
    &&& item.remote_url == record.remote_url
    &&& item.external_url == record.external_url
    &&& item.hosted_url == record.hosted_url
    &&& item.original_filename == record.original_filename
    &&& item.media_type == record.media_type
    &&& item.file_hash == record.file_hash
    &&& item.alias_names == record.alias_names
    &&& if kind == "library"@ {
        &&& item.notes == record.notes
        &&& item.folder_paths == record.folder_names
        &&& item.tag_names == record.tag_names
    } else {
        &&& item.notes@.len() == 0
        &&& item.folder_paths@.len() == 0
        &&& item.tag_names@.len() == 0
    }
    &&& match files {
        Some(f) if kind == "library"@ && record.source_kind@ == "local_file"@ => {
            &&& item.media_base64 is Some && item.media_base64->0@ == base64_text(f.media@)
            &&& match f.thumbnail {
                Some(t) => item.thumbnail_base64 is Some && item.thumbnail_base64->0@ == base64_text(t@),
                None => item.thumbnail_base64 is None,
            }
        },
        _ => item.media_base64 is None && item.thumbnail_base64 is None,
    }
}

/// Describes one record for an export.
pub fn export_item(record: MediaRecord, kind: &str, files: Option<ManagedFiles>) -> (r: TransferItem)
    ensures
        describes(r, record, kind@, files),
{
    let library = str_eq(kind, "library");
    let carries_files = needs_managed_files(&record, kind);
    let (media_base64, thumbnail_base64) = match &files {
        Some(f) if carries_files => {
            let m = encode_base64(f.media.as_slice());
            let t = match &f.thumbnail {
                Some(bytes) => Some(encode_base64(bytes.as_slice())),
                None => None,
            };
            (Some(m), t)
        },
        _ => (None, None),
    };
    TransferItem {
        title: record.title,
        source_kind: record.source_kind,
        remote_url: record.remote_url,
        external_url: record.external_url,
        hosted_url: record.hosted_url,
        original_filename: record.original_filename,
        media_type: record.media_type,
        file_hash: record.file_hash,
        notes: if library {
            record.notes
        } else {
            String::new()
        },
        folder_paths: if library {
            record.folder_names
        } else {
            Vec::new()
        },
        tag_names: if library {
            record.tag_names
        } else {
            Vec::new()
        },
        alias_names: record.alias_names,
        media_base64,
        thumbnail_base64,
    }
}

/// The positions of the records an export takes, in order.
pub open spec fn exported_positions(records: Seq<MediaRecord>, kind: Seq<char>, scoped_ids: Option<Seq<i64>>) -> Seq<int>
    decreases records.len(),
{
    if records.len() == 0 {
        Seq::empty()
    } else {
        let prev = exported_positions(records.drop_last(), kind, scoped_ids);
        if exported(records.last(), kind, scoped_ids) {
            prev.push(records.len() - 1)
        } else {
            prev
        }
    }
}

/// Builds the transfer file of an export: one item per exported record,
/// in order, each with the files read for it (`files[i]` belongs to
/// `records[i]`).
pub fn export_transfer(
    records: Vec<MediaRecord>,
    kind: &str,
    scoped_ids: Option<Vec<i64>>,
    files: Vec<Option<ManagedFiles>>,
) -> (r: TransferFile)
    requires
        files@.len() == records@.len(),
    ensures
        r.version == FORMAT_VERSION,
        r.kind@ == kind@,
        ({
            let pos = exported_positions(records@, kind@, ids_view(scoped_ids));
            &&& r.items@.len() == pos.len()
            &&& forall|j: int| 0 <= j < pos.len() ==> describes(#[trigger] r.items@[j], records@[pos[j]], kind@, files@[pos[j]])
        }),
{
    let ghost scope = ids_view(scoped_ids);
    let ghost recs = records@;
    let ghost fs = files@;
    let mut items: Vec<TransferItem> = Vec::new();
    let mut records = records;
    let mut files = files;
    let n = records.len();
    let mut remaining_records: Vec<MediaRecord> = Vec::new();
    let mut remaining_files: Vec<Option<ManagedFiles>> = Vec::new();
    // take the records out in order
    while records.len() > 0
        invariant
            records@.len() + remaining_records@.len() == n,
            files@.len() == records@.len(),
            remaining_files@.len() == remaining_records@.len(),
            n == recs.len(),
            n == fs.len(),
            forall|i: int| 0 <= i < records@.len() ==> #[trigger] records@[i] == recs[i],
            forall|i: int| 0 <= i < files@.len() ==> #[trigger] files@[i] == fs[i],
            forall|i: int| 0 <= i < remaining_records@.len() ==> #[trigger] remaining_records@[i] == recs[n - 1 - i],
            forall|i: int| 0 <= i < remaining_files@.len() ==> #[trigger] remaining_files@[i] == fs[n - 1 - i],
        decreases records@.len(),
    {
        let ghost r0 = records@;
        let ghost f0 = files@;
        let ghost rr0 = remaining_records@;
        let ghost rf0 = remaining_files@;
        let r = records.pop().unwrap();
        let f = files.pop().unwrap();
        remaining_records.push(r);
        remaining_files.push(f);
        proof {
            assert forall|i: int| 0 <= i < records@.len() implies #[trigger] records@[i] == recs[i] by {
                assert(records@[i] == r0[i]);
            }
            assert forall|i: int| 0 <= i < files@.len() implies #[trigger] files@[i] == fs[i] by {
                assert(files@[i] == f0[i]);
            }
            assert forall|i: int| 0 <= i < remaining_records@.len() implies #[trigger] remaining_records@[i] == recs[n - 1 - i] by {
                if i < rr0.len() {
                    assert(remaining_records@[i] == rr0[i]);
                } else {
                    assert(r == r0[r0.len() - 1]);
                }
            }
            assert forall|i: int| 0 <= i < remaining_files@.len() implies #[trigger] remaining_files@[i] == fs[n - 1 - i] by {
                if i < rf0.len() {
                    assert(remaining_files@[i] == rf0[i]);
                } else {
                    assert(f == f0[f0.len() - 1]);
                }
            }
        }
    }
    let mut k: usize = 0;
    while remaining_records.len() > 0
        invariant
            remaining_records@.len() + k == n,
            remaining_files@.len() == remaining_records@.len(),
            n == recs.len(),
            fs.len() == n,
            forall|i: int| 0 <= i < remaining_records@.len() ==> #[trigger] remaining_records@[i] == recs[n - 1 - i],
            forall|i: int| 0 <= i < remaining_files@.len() ==> #[trigger] remaining_files@[i] == fs[n - 1 - i],
            ({
                let pos = exported_positions(recs.take(k as int), kind@, scope);
                &&& items@.len() == pos.len()
                &&& forall|j: int| 0 <= j < pos.len() ==> describes(#[trigger] items@[j], recs[pos[j]], kind@, fs[pos[j]])
                &&& forall|j: int| 0 <= j < pos.len() ==> 0 <= #[trigger] pos[j] < k
            }),
            scope == ids_view(scoped_ids),
        decreases remaining_records@.len(),
    {
        let ghost rr0 = remaining_records@;
        let ghost rf0 = remaining_files@;
        let record = remaining_records.pop().unwrap();
        let f = remaining_files.pop().unwrap();
        proof {
            assert(record == rr0[rr0.len() - 1]);
            assert(f == rf0[rf0.len() - 1]);
            assert forall|i: int| 0 <= i < remaining_records@.len() implies #[trigger] remaining_records@[i] == recs[n - 1 - i] by {
                assert(remaining_records@[i] == rr0[i]);
            }
            assert forall|i: int| 0 <= i < remaining_files@.len() implies #[trigger] remaining_files@[i] == fs[n - 1 - i] by {
                assert(remaining_files@[i] == rf0[i]);
            }
            assert(record == recs[k as int]);
            assert(f == fs[k as int]);
            assert(recs.take(k + 1).drop_last() == recs.take(k as int));
            assert(recs.take(k + 1).last() == recs[k as int]);
            lemma_positions_prefix(recs, kind@, scope, k as int);
        }
        let ghost before = items@;
        let ghost pos0 = exported_positions(recs.take(k as int), kind@, scope);
        if export_includes(&record, kind, &scoped_ids) {
            let item = export_item(record, kind, f);
            items.push(item);
            proof {
                let pos1 = exported_positions(recs.take(k + 1), kind@, scope);
                assert(pos1 == pos0.push(k as int));
                assert forall|j: int| 0 <= j < pos1.len() implies describes(#[trigger] items@[j], recs[pos1[j]], kind@, fs[pos1[j]]) by {
                    if j < pos0.len() {
                        assert(items@[j] == before[j]);
                    }
                }
            }
        } else {
            proof {
                let pos1 = exported_positions(recs.take(k + 1), kind@, scope);
                assert(pos1 == pos0);
            }
        }
        k = k + 1;
    }
    assert(recs.take(k as int) == recs);
    TransferFile { version: FORMAT_VERSION, kind: owned(kind), items }
}

pub proof fn lemma_positions_prefix(records: Seq<MediaRecord>, kind: Seq<char>, scoped_ids: Option<Seq<i64>>, k: int)
    requires
        0 <= k < records.len(),
    ensures
        exported_positions(records.take(k + 1), kind, scoped_ids) == if exported(records[k], kind, scoped_ids) {
            exported_positions(records.take(k), kind, scoped_ids).push(k)
        } else {
            exported_positions(records.take(k), kind, scoped_ids)
        },
{
    assert(records.take(k + 1).drop_last() == records.take(k));
    assert(records.take(k + 1).last() == records[k]);
}

/// Alias names as an alias import writes them: trimmed, blank ones
/// dropped, one per case-insensitive name, sorted case-insensitively.
pub fn normalize_names(names: Vec<String>) -> (r: Vec<String>)
    ensures
        is_label_normal_form(r.deep_view(), names.deep_view()),
{
    normalize_label_values(&names)
}

/// What the file system reports about a picked path: whether it is a
/// regular file, and its length in bytes.
#[derive(Debug)]
pub struct FileFacts {
    pub is_file: bool,
    pub len: u64,
}

/// Why a picked transfer file is refused, if it is, given what reading its
/// metadata gave.
pub open spec fn import_path_error(metadata: Result<FileFacts, String>) -> Option<Seq<char>> {
    match metadata {
        Err(e) => Some("failed to read import file: "@ + e@),
        Ok(facts) => if !facts.is_file {
            Some("The selected import path is not a file."@)
        } else if facts.len > MAX_TRANSFER_PAYLOAD_BYTES {
            Some("import file is too large; maximum import size is 10 GB"@)
        } else {
            None
        },
    }
}

/// Accepts a picked transfer file when its metadata could be read, it is
/// a regular file, and it is within the import limit.
pub fn validate_import_file_path(path: &str, metadata: Result<FileFacts, String>) -> (r: Result<String, String>)
    ensures
        r is Err <==> import_path_error(metadata) is Some,
        r matches Err(e) ==> Some(e@) == import_path_error(metadata),
        r matches Ok(p) ==> p@ == path@,
{
    match metadata {
        Err(e) => {
            let mut msg = owned("failed to read import file: ");
            push_str(&mut msg, e.as_str());
            Err(msg)
        },
        Ok(facts) => {
            if !facts.is_file {
                Err(owned("The selected import path is not a file."))
            } else if facts.len > MAX_TRANSFER_PAYLOAD_BYTES {
                Err(owned("import file is too large; maximum import size is 10 GB"))
            } else {
                Ok(owned(path))
            }
        },
    }
}

/// Describes a picked transfer file: its path, its file name (or
/// `Import file` when it has none), and the size read when it was
/// described.
pub fn import_file_selection(path: &str, metadata: Result<FileFacts, String>, size: Result<u64, String>) -> (r: Result<
    ImportFileSelection,
    String,
>)
    ensures
        import_path_error(metadata) is Some ==> (r matches Err(e) && Some(e@) == import_path_error(metadata)),
        import_path_error(metadata) is None && size is Err ==> (r matches Err(e) && e@
            == "failed to read import file metadata: "@ + size->Err_0@),
        import_path_error(metadata) is None && size is Ok ==> (r matches Ok(sel) && sel.path@ == path@
            && sel.size_bytes == size->Ok_0),
        r is Ok && crate::paths::is_plain_name(path@) ==> r->Ok_0.file_name@ == path@,
{
    let checked = match validate_import_file_path(path, metadata) {
        Ok(p) => p,
        Err(e) => {
            return Err(e);
        },
    };
    let size_bytes = match size {
        Ok(n) => n,
        Err(e) => {
            let mut msg = owned("failed to read import file metadata: ");
            push_str(&mut msg, e.as_str());
            return Err(msg);
        },
    };
    let file_name = match crate::paths::file_name_of(checked.as_str()) {
        Some(name) => name,
        None => owned("Import file"),
    };
    Ok(ImportFileSelection { path: checked, file_name, size_bytes })
}

} // verus!
