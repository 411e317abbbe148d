//! The hub: pairing with clients, what they send encrypted, and the files that pass through.
//!
//! The hub decides and remembers; what is to be kept, sent or fetched it hands back.
use vstd::prelude::*;

use crate::bytes;
use crate::codec;
use crate::delivery;
use crate::delivery::Target;
use crate::database::{StoredClient, StoredClientView};
use crate::pieces;
use crate::paste::{Paste, PasteView, FIELD_ID, FIELD_PASTE_TYPE, FIELD_SIZE};
use crate::random;
use crate::secure;
use crate::secure::{
    build_key_exchange_response, build_trust_confirm_response, client_crypt_public_key,
    compute_sas, decode_public_key_b64, sign_pairing_response, verify_key_exchange_request,
    verify_pairing_request, verify_trust_confirm, KeyExchangeRequest, KeyExchangeResponse,
    PairingResponse, SecureError, SecureErrorView, ServerKeys, TrustConfirmRequest,
    TrustConfirmResponse, TrustRequest, TrustResponse,
};
use crate::sort;
use crate::sort::Ordered;
use crate::sync_info::{SyncInfo, SyncInfoView};
use crate::table::Table;
use crate::text;

verus! {

/// How long a pairing stays open, in milliseconds.
pub const PAIRING_TOKEN_TTL_MS: i64 = 30_000;

/// The size of the pieces in which a file is sent, in bytes.
pub const FILE_CHUNK_SIZE: u64 = 1_048_576;

/// The size of the pieces in which a stream is encrypted, in bytes.
pub const ENCRYPT_STREAM_CHUNK_SIZE: usize = 262_144;

/// The longest name of an icon's source, in bytes.
pub const MAX_ICON_SOURCE: usize = 1024;

/// The kind of a challenge by short code.
pub const KIND_SAS: &'static str = "sas-v2";

/// The kind of a challenge by token.
pub const KIND_TOKEN: &'static str = "token-v1";

/// Who a token is for that was handed out with a code to scan.
pub const SCAN_CLIENT: &'static str = "扫码配对";

/// Why the hub refuses.
#[derive(Debug, Clone, PartialEq, Eq)]
pub enum HubError {
    InvalidPairingSignature,
    TokenNotRequested,
    TokenExpired,
    TokenMismatch,
    InvalidKeyExchangeSignature,
    KeyExchangeNotFound,
    KeyExchangeExpired,
    InvalidConfirmationSignature,
    UnpairedClient,
    MissingId,
    MissingSize,
    SizeNotPositive,
    PushSessionNotFound,
    PushOwnerMismatch,
    InvalidPushToken,
    ChunkOutOfRange,
    StoredFileNotFound,
    NoSyncInfo,
    NoReachableHost,
    MissingCryptKey,
    InvalidIconSource,
    TruncatedLength,
    TruncatedChunk,
    ChunkSizeTooLarge,
    ChunkSizeZero,
    ChunkCountMismatch { expected: usize, got: usize },
    PushRejected { status: u16 },
    ChunkRejectedByTarget { index: usize },
    CompletionRejected,
    ChunkRejectedBySource { index: usize },
    IconRejected,
    Secure(SecureError),
}

/// A [`HubError`] with its words by their characters.
#[verifier::ext_equal]
pub enum HubErrorView {
    InvalidPairingSignature,
    TokenNotRequested,
    TokenExpired,
    TokenMismatch,
    InvalidKeyExchangeSignature,
    KeyExchangeNotFound,
    KeyExchangeExpired,
    InvalidConfirmationSignature,
    UnpairedClient,
    MissingId,
    MissingSize,
    SizeNotPositive,
    PushSessionNotFound,
    PushOwnerMismatch,
    InvalidPushToken,
    ChunkOutOfRange,
    StoredFileNotFound,
    NoSyncInfo,
    NoReachableHost,
    MissingCryptKey,
    InvalidIconSource,
    TruncatedLength,
    TruncatedChunk,
    ChunkSizeTooLarge,
    ChunkSizeZero,
    ChunkCountMismatch { expected: usize, got: usize },
    PushRejected { status: u16 },
    ChunkRejectedByTarget { index: usize },
    CompletionRejected,
    ChunkRejectedBySource { index: usize },
    IconRejected,
    Secure(SecureErrorView),
}

impl View for HubError {
    type V = HubErrorView;

    open spec fn view(&self) -> HubErrorView {
        match self {
            HubError::InvalidPairingSignature => HubErrorView::InvalidPairingSignature,
            HubError::TokenNotRequested => HubErrorView::TokenNotRequested,
            HubError::TokenExpired => HubErrorView::TokenExpired,
            HubError::TokenMismatch => HubErrorView::TokenMismatch,
            HubError::InvalidKeyExchangeSignature => HubErrorView::InvalidKeyExchangeSignature,
            HubError::KeyExchangeNotFound => HubErrorView::KeyExchangeNotFound,
            HubError::KeyExchangeExpired => HubErrorView::KeyExchangeExpired,
            HubError::InvalidConfirmationSignature => HubErrorView::InvalidConfirmationSignature,
            HubError::UnpairedClient => HubErrorView::UnpairedClient,
            HubError::MissingId => HubErrorView::MissingId,
            HubError::MissingSize => HubErrorView::MissingSize,
            HubError::SizeNotPositive => HubErrorView::SizeNotPositive,
            HubError::PushSessionNotFound => HubErrorView::PushSessionNotFound,
            HubError::PushOwnerMismatch => HubErrorView::PushOwnerMismatch,
            HubError::InvalidPushToken => HubErrorView::InvalidPushToken,
            HubError::ChunkOutOfRange => HubErrorView::ChunkOutOfRange,
            HubError::StoredFileNotFound => HubErrorView::StoredFileNotFound,
            HubError::NoSyncInfo => HubErrorView::NoSyncInfo,
            HubError::NoReachableHost => HubErrorView::NoReachableHost,
            HubError::MissingCryptKey => HubErrorView::MissingCryptKey,
            HubError::InvalidIconSource => HubErrorView::InvalidIconSource,
            HubError::TruncatedLength => HubErrorView::TruncatedLength,
            HubError::TruncatedChunk => HubErrorView::TruncatedChunk,
            HubError::ChunkSizeTooLarge => HubErrorView::ChunkSizeTooLarge,
            HubError::ChunkSizeZero => HubErrorView::ChunkSizeZero,
            HubError::ChunkCountMismatch { expected, got } => {
                HubErrorView::ChunkCountMismatch { expected: *expected, got: *got }
            },
            HubError::PushRejected { status } => HubErrorView::PushRejected { status: *status },
            HubError::ChunkRejectedByTarget { index } => {
                HubErrorView::ChunkRejectedByTarget { index: *index }
            },
            HubError::CompletionRejected => HubErrorView::CompletionRejected,
            HubError::ChunkRejectedBySource { index } => {
                HubErrorView::ChunkRejectedBySource { index: *index }
            },
            HubError::IconRejected => HubErrorView::IconRejected,
            HubError::Secure(error) => HubErrorView::Secure(error@),
        }
    }
}

impl HubErrorView {
    /// The error in words.
    pub open spec fn words(self) -> Seq<char> {
        match self {
            HubErrorView::InvalidPairingSignature => "invalid pairing signature"@,
            HubErrorView::TokenNotRequested => "pairing token was not requested"@,
            HubErrorView::TokenExpired => "pairing token expired"@,
            HubErrorView::TokenMismatch => "pairing token mismatch"@,
            HubErrorView::InvalidKeyExchangeSignature => "invalid key exchange signature"@,
            HubErrorView::KeyExchangeNotFound => "key exchange not found or expired"@,
            HubErrorView::KeyExchangeExpired => "key exchange expired"@,
            HubErrorView::InvalidConfirmationSignature => "invalid trust confirmation signature"@,
            HubErrorView::UnpairedClient => "unpaired client"@,
            HubErrorView::MissingId => "file paste is missing id"@,
            HubErrorView::MissingSize => "file paste is missing size"@,
            HubErrorView::SizeNotPositive => "file paste size must be positive"@,
            HubErrorView::PushSessionNotFound => "push session not found"@,
            HubErrorView::PushOwnerMismatch => "push session owner mismatch"@,
            HubErrorView::InvalidPushToken => "invalid push session token"@,
            HubErrorView::ChunkOutOfRange => "chunk index out of range"@,
            HubErrorView::StoredFileNotFound => "stored file not found"@,
            HubErrorView::NoSyncInfo => "source client has no SyncInfo"@,
            HubErrorView::NoReachableHost => "source client has no reachable host"@,
            HubErrorView::MissingCryptKey => "missing client crypt key"@,
            HubErrorView::InvalidIconSource => "invalid icon source"@,
            HubErrorView::TruncatedLength => "truncated encrypted stream length"@,
            HubErrorView::TruncatedChunk => "truncated encrypted stream chunk"@,
            HubErrorView::ChunkSizeTooLarge => "out of range integral type conversion attempted"@,
            HubErrorView::ChunkSizeZero => "target chunk size is zero"@,
            HubErrorView::ChunkCountMismatch { expected, got } => {
                "target chunk count mismatch: expected "@ + text::decimal(expected as int)
                    + ", got "@ + text::decimal(got as int)
            },
            HubErrorView::PushRejected { status } => {
                "file push prepare rejected: "@ + text::decimal(status as int)
            },
            HubErrorView::ChunkRejectedByTarget { index } => {
                "target rejected chunk "@ + text::decimal(index as int)
            },
            HubErrorView::CompletionRejected => "target rejected file push completion"@,
            HubErrorView::ChunkRejectedBySource { index } => {
                "source rejected file chunk "@ + text::decimal(index as int)
            },
            HubErrorView::IconRejected => "source icon request failed"@,
            HubErrorView::Secure(error) => error.words(),
        }
    }
}

impl HubError {
    /// The error in words.
    pub fn message(&self) -> (words: String)
        ensures
            words@ == self@.words(),
    {
        (match self {
            HubError::InvalidPairingSignature => "invalid pairing signature",
            HubError::TokenNotRequested => "pairing token was not requested",
            HubError::TokenExpired => "pairing token expired",
            HubError::TokenMismatch => "pairing token mismatch",
            HubError::InvalidKeyExchangeSignature => "invalid key exchange signature",
            HubError::KeyExchangeNotFound => "key exchange not found or expired",
            HubError::KeyExchangeExpired => "key exchange expired",
            HubError::InvalidConfirmationSignature => "invalid trust confirmation signature",
            HubError::UnpairedClient => "unpaired client",
            HubError::MissingId => "file paste is missing id",
            HubError::MissingSize => "file paste is missing size",
            HubError::SizeNotPositive => "file paste size must be positive",
            HubError::PushSessionNotFound => "push session not found",
            HubError::PushOwnerMismatch => "push session owner mismatch",
            HubError::InvalidPushToken => "invalid push session token",
            HubError::ChunkOutOfRange => "chunk index out of range",
            HubError::StoredFileNotFound => "stored file not found",
            HubError::NoSyncInfo => "source client has no SyncInfo",
            HubError::NoReachableHost => "source client has no reachable host",
            HubError::MissingCryptKey => "missing client crypt key",
            HubError::InvalidIconSource => "invalid icon source",
            HubError::TruncatedLength => "truncated encrypted stream length",
            HubError::TruncatedChunk => "truncated encrypted stream chunk",
            HubError::ChunkSizeTooLarge => "out of range integral type conversion attempted",
            HubError::ChunkSizeZero => "target chunk size is zero",
            HubError::ChunkCountMismatch { expected, got } => {
                return "target chunk count mismatch: expected ".to_owned().concat(
                    text::unsigned_text(*expected as u64).as_str(),
                ).concat(", got ").concat(text::unsigned_text(*got as u64).as_str());
            },
            HubError::PushRejected { status } => {
                return "file push prepare rejected: ".to_owned().concat(
                    text::unsigned_text(*status as u64).as_str(),
                );
            },
            HubError::ChunkRejectedByTarget { index } => {
                return "target rejected chunk ".to_owned().concat(
                    text::unsigned_text(*index as u64).as_str(),
                );
            },
            HubError::CompletionRejected => "target rejected file push completion",
            HubError::ChunkRejectedBySource { index } => {
                return "source rejected file chunk ".to_owned().concat(
                    text::unsigned_text(*index as u64).as_str(),
                );
            },
            HubError::IconRejected => "source icon request failed",
            HubError::Secure(error) => return error.message(),
        }).to_owned()
    }
}

/// The token that clients pair with; 0 stands for none.
#[derive(Debug)]
pub struct PairingToken {
    pub value: u32,
    pub expires_at_ms: i64,
    pub client_id: Option<String>,
}

/// A [`PairingToken`] with its texts by their characters.
#[verifier::ext_equal]
pub struct PairingTokenView {
    pub value: u32,
    pub expires_at_ms: i64,
    pub client_id: Option<Seq<char>>,
}

impl View for PairingToken {
    type V = PairingTokenView;

    open spec fn view(&self) -> PairingTokenView {
        PairingTokenView {
            value: self.value,
            expires_at_ms: self.expires_at_ms,
            client_id: text::optional(self.client_id),
        }
    }
}

/// A key exchange that the client has yet to confirm.
#[derive(Debug)]
pub struct PendingKeyExchange {
    pub sign_public_key: String,
    pub crypt_public_key: Vec<u8>,
    pub sas: u32,
    pub expires_at_ms: i64,
}

/// A [`PendingKeyExchange`] with its texts by their characters.
#[verifier::ext_equal]
pub struct PendingKeyExchangeView {
    pub sign_public_key: Seq<char>,
    pub crypt_public_key: Seq<u8>,
    pub sas: u32,
    pub expires_at_ms: i64,
}

impl View for PendingKeyExchange {
    type V = PendingKeyExchangeView;

    open spec fn view(&self) -> PendingKeyExchangeView {
        PendingKeyExchangeView {
            sign_public_key: self.sign_public_key@,
            crypt_public_key: self.crypt_public_key@,
            sas: self.sas,
            expires_at_ms: self.expires_at_ms,
        }
    }
}

/// A file on its way from a client to the server.
#[derive(Debug)]
pub struct PushSession {
    pub paste_id: i64,
    pub from_app_instance_id: String,
    pub paste: Paste,
    pub token: String,
    pub chunk_count: usize,
    /// Which pieces have come.
    pub received: Vec<bool>,
}

/// A [`PushSession`] with its texts by their characters.
#[verifier::ext_equal]
pub struct PushSessionView {
    pub paste_id: i64,
    pub from_app_instance_id: Seq<char>,
    pub paste: PasteView,
    pub token: Seq<char>,
    pub chunk_count: usize,
    pub received: Seq<bool>,
}

impl View for PushSession {
    type V = PushSessionView;

    open spec fn view(&self) -> PushSessionView {
        PushSessionView {
            paste_id: self.paste_id,
            from_app_instance_id: self.from_app_instance_id@,
            paste: self.paste@,
            token: self.token@,
            chunk_count: self.chunk_count,
            received: self.received@,
        }
    }
}

/// A file that the server has whole.
#[derive(Debug)]
pub struct StoredFile {
    /// The directory of its pieces, below that of all transfers.
    pub directory: String,
    pub chunk_count: usize,
}

/// A [`StoredFile`] with its texts by their characters.
#[verifier::ext_equal]
pub struct StoredFileView {
    pub directory: Seq<char>,
    pub chunk_count: usize,
}

impl View for StoredFile {
    type V = StoredFileView;

    open spec fn view(&self) -> StoredFileView {
        StoredFileView { directory: self.directory@, chunk_count: self.chunk_count }
    }
}

/// The answer to a client that is about to send a file.
#[derive(Debug)]
pub struct PushPrepareResponse {
    pub paste_id: i64,
    pub chunk_count: usize,
    pub chunk_size: u64,
    pub session_token: String,
    pub need_icon: bool,
}

/// The answer to a client that has sent a file: the pieces that did not come.
#[derive(Debug)]
pub struct PushCompleteResponse {
    pub missing_chunks: Vec<usize>,
}

/// A file that has come whole and goes on to the other clients.
#[derive(Debug)]
pub struct CompletedPush {
    pub paste_id: i64,
    pub from_app_instance_id: String,
    pub paste: Paste,
    pub chunk_count: usize,
    /// The directory of its pieces, below that of all transfers.
    pub directory: String,
}

/// A paired client.
#[derive(Debug)]
pub struct PairedClient {
    pub app_instance_id: String,
    pub paired_at_ms: i64,
}

/// A [`PairedClient`] with its texts by their characters.
#[verifier::ext_equal]
pub struct PairedClientView {
    pub app_instance_id: Seq<char>,
    pub paired_at_ms: i64,
}

impl View for PairedClient {
    type V = PairedClientView;

    open spec fn view(&self) -> PairedClientView {
        PairedClientView {
            app_instance_id: self.app_instance_id@,
            paired_at_ms: self.paired_at_ms,
        }
    }
}

impl Clone for PairedClient {
    fn clone(&self) -> (copy: Self)
        ensures
            copy == *self,
    {
        PairedClient {
            app_instance_id: self.app_instance_id.clone(),
            paired_at_ms: self.paired_at_ms,
        }
    }
}

/// A code that a client is waiting for someone to enter.
#[derive(Debug)]
pub struct PairingChallenge {
    pub client_id: String,
    pub code: String,
    pub kind: String,
    pub expires_at_ms: i64,
}

/// A [`PairingChallenge`] with its texts by their characters.
#[verifier::ext_equal]
pub struct PairingChallengeView {
    pub client_id: Seq<char>,
    pub code: Seq<char>,
    pub kind: Seq<char>,
    pub expires_at_ms: i64,
}

impl View for PairingChallenge {
    type V = PairingChallengeView;

    open spec fn view(&self) -> PairingChallengeView {
        PairingChallengeView {
            client_id: self.client_id@,
            code: self.code@,
            kind: self.kind@,
            expires_at_ms: self.expires_at_ms,
        }
    }
}

/// Challenges are listed by how long they last, the longest first.
impl Ordered for PairingChallenge {
    open spec fn le(a: PairingChallengeView, b: PairingChallengeView) -> bool {
        a.expires_at_ms >= b.expires_at_ms
    }

    proof fn lemma_total(a: PairingChallengeView, b: PairingChallengeView) {
    }

    proof fn lemma_transitive(
        a: PairingChallengeView,
        b: PairingChallengeView,
        c: PairingChallengeView,
    ) {
    }

    fn not_after(&self, other: &Self) -> (le: bool) {
        self.expires_at_ms >= other.expires_at_ms
    }
}

/// How a broadcast went.
#[derive(Debug, Clone, Copy)]
pub struct BroadcastReport {
    pub attempted: usize,
    pub delivered: usize,
    pub failed: usize,
}

/// What the hub remembers, with all texts by their characters.
#[verifier::ext_equal]
pub struct HubView {
    pub pairing_token: PairingTokenView,
    pub clients: Map<Seq<char>, PairedClientView>,
    pub client_crypt_keys: Map<Seq<char>, Seq<u8>>,
    pub pending_key_exchanges: Map<Seq<char>, PendingKeyExchangeView>,
    pub client_sync_infos: Map<Seq<char>, SyncInfoView>,
    pub pastes: Map<Seq<char>, PasteView>,
    pub push_sessions: Map<i64, PushSessionView>,
    pub stored_files: Map<i64, StoredFileView>,
}

/// The hub that knows nobody.
pub open spec fn empty_hub() -> HubView {
    HubView {
        pairing_token: PairingTokenView { value: 0, expires_at_ms: 0, client_id: None },
        clients: Map::empty(),
        client_crypt_keys: Map::empty(),
        pending_key_exchanges: Map::empty(),
        client_sync_infos: Map::empty(),
        pastes: Map::empty(),
        push_sessions: Map::empty(),
        stored_files: Map::empty(),
    }
}

impl HubView {
    /// What holds of every hub: of each file on its way it is noted for each piece whether it came.
    pub open spec fn wf(self) -> bool {
        forall|id: i64| #[trigger]
            self.push_sessions.contains_key(id) ==> self.push_sessions[id].received.len()
                == self.push_sessions[id].chunk_count
    }

    /// The hub with that client paired under its key.
    pub open spec fn with_client(self, id: Seq<char>, paired_at_ms: i64, key: Seq<u8>) -> HubView {
        HubView {
            clients: self.clients.insert(
                id,
                PairedClientView { app_instance_id: id, paired_at_ms },
            ),
            client_crypt_keys: self.client_crypt_keys.insert(id, key),
            ..self
        }
    }

    /// The hub with that piece of a file noted as come.
    pub open spec fn with_chunk(self, paste_id: i64, index: usize) -> HubView {
        let session = self.push_sessions[paste_id];
        HubView {
            push_sessions: self.push_sessions.insert(
                paste_id,
                PushSessionView { received: session.received.update(index as int, true), ..session },
            ),
            ..self
        }
    }

    /// The hub without that client.
    pub open spec fn without_client(self, id: Seq<char>) -> HubView {
        HubView {
            clients: self.clients.remove(id),
            client_crypt_keys: self.client_crypt_keys.remove(id),
            client_sync_infos: self.client_sync_infos.remove(id),
            ..self
        }
    }

    /// The hub with that token to pair with.
    pub open spec fn with_token(
        self,
        value: u32,
        client_id: Option<Seq<char>>,
        now_ms: i64,
    ) -> HubView {
        HubView {
            pairing_token: PairingTokenView {
                value,
                expires_at_ms: (now_ms + PAIRING_TOKEN_TTL_MS) as i64,
                client_id,
            },
            ..self
        }
    }
}

/// A client that is read back, and what it told about itself.
#[derive(Debug)]
pub struct LoadedClient {
    pub client: StoredClient,
    pub sync_info: Option<SyncInfo>,
}

/// The hub with the clients that are read back.
pub open spec fn loaded(clients: Seq<LoadedClient>) -> HubView
    decreases clients.len(),
{
    if clients.len() == 0 {
        empty_hub()
    } else {
        let earlier = loaded(clients.drop_last());
        let client = clients.last().client@;
        let paired = earlier.with_client(
            client.app_instance_id,
            client.paired_at_ms,
            client.crypt_public_key,
        );
        match clients.last().sync_info {
            Some(info) => HubView {
                client_sync_infos: paired.client_sync_infos.insert(client.app_instance_id, info@),
                ..paired
            },
            None => paired,
        }
    }
}

/// The hub.
pub struct Hub {
    keys: ServerKeys,
    pairing_token: PairingToken,
    clients: Table<String, PairedClient>,
    client_crypt_keys: Table<String, Vec<u8>>,
    pending_key_exchanges: Table<String, PendingKeyExchange>,
    client_sync_infos: Table<String, SyncInfo>,
    pastes: Table<String, Paste>,
    push_sessions: Table<i64, PushSession>,
    stored_files: Table<i64, StoredFile>,
}

impl View for Hub {
    type V = HubView;

    closed spec fn view(&self) -> HubView {
        HubView {
            pairing_token: self.pairing_token@,
            clients: self.clients@,
            client_crypt_keys: self.client_crypt_keys@,
            pending_key_exchanges: self.pending_key_exchanges@,
            client_sync_infos: self.client_sync_infos@,
            pastes: self.pastes@,
            push_sessions: self.push_sessions@,
            stored_files: self.stored_files@,
        }
    }
}

impl Hub {
    /// The server's keys.
    pub closed spec fn server_keys(&self) -> ServerKeys {
        self.keys
    }

    /// The ids of the paired clients in the order in which they are listed.
    pub closed spec fn client_order(&self) -> Seq<Seq<char>> {
        self.clients.keys()
    }

    /// The ids of the clients with an open key exchange in the order in which they are listed.
    pub closed spec fn exchange_order(&self) -> Seq<Seq<char>> {
        self.pending_key_exchanges.keys()
    }

    /// The ids of the clients that told about themselves in the order in which they are listed.
    pub closed spec fn informed_order(&self) -> Seq<Seq<char>> {
        self.client_sync_infos.keys()
    }

    /// The hub with the server's keys and the clients that are read back.
    pub fn load_or_create(keys: ServerKeys, persisted: Vec<LoadedClient>) -> (hub: Self)
        ensures
            hub.server_keys() == keys,
            hub@ == loaded(persisted@),
            hub@.wf(),
    {
        let mut hub = Hub {
            keys,
            pairing_token: PairingToken { value: 0, expires_at_ms: 0, client_id: None },
            clients: Table::new(),
            client_crypt_keys: Table::new(),
            pending_key_exchanges: Table::new(),
            client_sync_infos: Table::new(),
            pastes: Table::new(),
            push_sessions: Table::new(),
            stored_files: Table::new(),
        };
        let mut i: usize = 0;
        let len = persisted.len();
        let ghost all = persisted@;
        assert(all.take(0) =~= Seq::empty());
        assert(hub@ =~= empty_hub());
        while i < len
            invariant
                i <= len,
                len == persisted@.len(),
                all == persisted@,
                hub.keys == keys,
                hub@ == loaded(all.take(i as int)),
                hub@.push_sessions == Map::<i64, PushSessionView>::empty(),
            decreases len - i,
        {
            let client = &persisted[i].client;
            let id = client.app_instance_id.clone();
            if let Some(info) = &persisted[i].sync_info {
                hub.client_sync_infos.insert(id.clone(), info.clone());
            }
            hub.client_crypt_keys.insert(
                id.clone(),
                bytes::copy(client.crypt_public_key.as_slice()),
            );
            let paired = PairedClient {
                app_instance_id: id.clone(),
                paired_at_ms: client.paired_at_ms,
            };
            hub.clients.insert(id, paired);
            i += 1;
            assert(all.take(i as int).drop_last() =~= all.take(i - 1));
            assert(all.take(i as int).last() == all[i - 1]);
            assert(hub@ =~= loaded(all.take(i as int)));
        }
        assert(all.take(i as int) =~= all);
        hub
    }

    /// Sets the token that clients pair with.
    pub fn set_pairing_token(&mut self, token: u32, now_ms: i64)
        requires
            now_ms <= i64::MAX - PAIRING_TOKEN_TTL_MS,
        ensures
            final(self).server_keys() == old(self).server_keys(),
            final(self)@ == old(self)@.with_token(token, None, now_ms),
    {
        self.set_pairing_token_for(token, None, now_ms);
    }

    /// Sets the token that clients pair with, and who it is for.
    pub fn set_pairing_token_for(&mut self, token: u32, client_id: Option<&str>, now_ms: i64)
        requires
            now_ms <= i64::MAX - PAIRING_TOKEN_TTL_MS,
        ensures
            final(self).server_keys() == old(self).server_keys(),
            final(self)@ == old(self)@.with_token(token, text::optional_str(client_id), now_ms),
    {
        let client_id = match client_id {
            Some(id) => Some(id.to_owned()),
            None => None,
        };
        self.pairing_token = PairingToken {
            value: token,
            expires_at_ms: now_ms + PAIRING_TOKEN_TTL_MS,
            client_id,
        };
    }

    /// Sets a new token that clients pair with.
    pub fn issue_pairing_token(&mut self, now_ms: i64) -> (token: u32)
        requires
            now_ms <= i64::MAX - PAIRING_TOKEN_TTL_MS,
        ensures
            final(self).server_keys() == old(self).server_keys(),
            100_000 <= token <= 999_999,
            final(self)@ == old(self)@.with_token(token, None, now_ms),
    {
        self.issue_pairing_token_for(None, now_ms)
    }

    /// Sets a new token that clients pair with, and who it is for. It has six digits.
    pub fn issue_pairing_token_for(&mut self, client_id: Option<&str>, now_ms: i64) -> (token: u32)
        requires
            now_ms <= i64::MAX - PAIRING_TOKEN_TTL_MS,
        ensures
            final(self).server_keys() == old(self).server_keys(),
            100_000 <= token <= 999_999,
            final(self)@ == old(self)@.with_token(token, text::optional_str(client_id), now_ms),
    {
        let token = token_from(random::random_u32());
        self.set_pairing_token_for(token, client_id, now_ms);
        token
    }
}

/// The token of six digits that a random number gives.
pub fn token_from(number: u32) -> (token: u32)
    ensures
        token == 100_000 + number % 900_000,
        100_000 <= token <= 999_999,
{
    100_000 + number % 900_000
}

/// The challenges of these clients' key exchanges that are still open at that time.
pub open spec fn exchange_challenges(
    order: Seq<Seq<char>>,
    exchanges: Map<Seq<char>, PendingKeyExchangeView>,
    now_ms: i64,
) -> Seq<PairingChallengeView>
    decreases order.len(),
{
    if order.len() == 0 {
        Seq::empty()
    } else {
        let earlier = exchange_challenges(order.drop_last(), exchanges, now_ms);
        let exchange = exchanges[order.last()];
        if exchange.expires_at_ms >= now_ms {
            earlier.push(
                PairingChallengeView {
                    client_id: order.last(),
                    code: text::six_digits(exchange.sas as nat),
                    kind: KIND_SAS@,
                    expires_at_ms: exchange.expires_at_ms,
                },
            )
        } else {
            earlier
        }
    }
}

/// The challenge of the pairing token, if there is one that is still good at that time.
pub open spec fn token_challenge(token: PairingTokenView, now_ms: i64) -> Seq<
    PairingChallengeView,
> {
    if token.value != 0 && token.expires_at_ms >= now_ms {
        seq![
            PairingChallengeView {
                client_id: match token.client_id {
                    Some(id) => id,
                    None => SCAN_CLIENT@,
                },
                code: text::six_digits(token.value as nat),
                kind: KIND_TOKEN@,
                expires_at_ms: token.expires_at_ms,
            },
        ]
    } else {
        Seq::empty()
    }
}

impl Hub {
    /// The codes that clients are waiting for at that time, those that last longest first.
    pub fn pairing_challenges(&self, now_ms: i64) -> (challenges: Vec<PairingChallenge>)
        ensures
            self.exchange_order().no_duplicates(),
            self.exchange_order().to_set() == self@.pending_key_exchanges.dom(),
            sort::views(challenges@) == sort::sorted::<PairingChallenge>(
                exchange_challenges(
                    self.exchange_order(),
                    self@.pending_key_exchanges,
                    now_ms,
                ) + token_challenge(self@.pairing_token, now_ms),
            ),
    {
        let mut challenges: Vec<PairingChallenge> = Vec::new();
        let count = self.pending_key_exchanges.len();
        let ghost order = self.pending_key_exchanges.keys();
        let mut i: usize = 0;
        assert(order.take(0) =~= Seq::empty());
        assert(sort::views(challenges@) =~= Seq::empty());
        while i < count
            invariant
                i <= count,
                count == order.len(),
                order == self.pending_key_exchanges.keys(),
                sort::views(challenges@) == exchange_challenges(
                    order.take(i as int),
                    self.pending_key_exchanges@,
                    now_ms,
                ),
            decreases count - i,
        {
            let entry = self.pending_key_exchanges.entry(i);
            let ghost before = sort::views(challenges@);
            if entry.1.expires_at_ms >= now_ms {
                let challenge = PairingChallenge {
                    client_id: entry.0.clone(),
                    code: text::six_digit_text(entry.1.sas),
                    kind: KIND_SAS.to_owned(),
                    expires_at_ms: entry.1.expires_at_ms,
                };
                challenges.push(challenge);
                assert(sort::views(challenges@) =~= before.push(challenge@));
            }
            i += 1;
            assert(order.take(i as int).drop_last() =~= order.take(i - 1));
            assert(order.take(i as int).last() == order[i - 1]);
        }
        assert(order.take(i as int) =~= order);
        let token = &self.pairing_token;
        let ghost before = sort::views(challenges@);
        if token.value != 0 && token.expires_at_ms >= now_ms {
            let client_id = match &token.client_id {
                Some(id) => id.clone(),
                None => SCAN_CLIENT.to_owned(),
            };
            let challenge = PairingChallenge {
                client_id,
                code: text::six_digit_text(token.value),
                kind: KIND_TOKEN.to_owned(),
                expires_at_ms: token.expires_at_ms,
            };
            challenges.push(challenge);
            assert(sort::views(challenges@) =~= before + seq![challenge@]);
        }
        assert(sort::views(challenges@) =~= before + token_challenge(self@.pairing_token, now_ms));
        sort::sort(challenges)
    }

    /// Whether the client is paired.
    pub fn is_paired(&self, app_instance_id: &str) -> (paired: bool)
        ensures
            paired == self@.clients.contains_key(app_instance_id@),
    {
        self.clients.contains_key(app_instance_id)
    }

    /// How many clients are paired.
    pub fn paired_count(&self) -> (count: usize)
        ensures
            count == self@.clients.dom().len(),
            self@.clients.dom().finite(),
    {
        self.clients.len()
    }

    /// The paired clients.
    pub fn list_clients(&self) -> (clients: Vec<PairedClient>)
        ensures
            self.client_order().no_duplicates(),
            self.client_order().to_set() == self@.clients.dom(),
            clients@.len() == self.client_order().len(),
            forall|i: int|
                0 <= i < clients@.len() ==> (#[trigger] clients@[i])@
                    == self@.clients[self.client_order()[i]],
    {
        let mut clients: Vec<PairedClient> = Vec::new();
        let count = self.clients.len();
        let mut i: usize = 0;
        while i < count
            invariant
                i <= count,
                count == self.clients.keys().len(),
                clients@.len() == i,
                forall|j: int|
                    0 <= j < clients@.len() ==> (#[trigger] clients@[j])@
                        == self.clients@[self.clients.keys()[j]],
            decreases count - i,
        {
            clients.push(self.clients.entry(i).1.clone());
            i += 1;
        }
        clients
    }

    /// The key that the client agrees on keys with, as a public key document.
    pub fn client_crypt_key(&self, app_instance_id: &str) -> (key: Option<Vec<u8>>)
        ensures
            match key {
                Some(key) => {
                    &&& self@.client_crypt_keys.contains_key(app_instance_id@)
                    &&& key@ == self@.client_crypt_keys[app_instance_id@]
                },
                None => !self@.client_crypt_keys.contains_key(app_instance_id@),
            },
    {
        match self.client_crypt_keys.get(app_instance_id) {
            Some(key) => Some(bytes::copy(key.as_slice())),
            None => None,
        }
    }

    /// What the client told about itself.
    pub fn client_sync_info(&self, app_instance_id: &str) -> (info: Option<SyncInfo>)
        ensures
            match info {
                Some(info) => self@.client_sync_infos.contains_key(app_instance_id@) && info@
                    == self@.client_sync_infos[app_instance_id@],
                None => !self@.client_sync_infos.contains_key(app_instance_id@),
            },
    {
        match self.client_sync_infos.get(app_instance_id) {
            Some(info) => Some(info.clone()),
            None => None,
        }
    }
}

/// A client that has just been paired, as it is to be kept.
pub open spec fn new_client(id: Seq<char>, paired_at_ms: i64, key: Seq<u8>) -> StoredClientView {
    StoredClientView {
        app_instance_id: id,
        paired_at_ms,
        crypt_public_key: key,
        sync_info_json: None,
        last_seen_ms: None,
    }
}

/// What comes of a request to pair by token: the client's key document, or why it is refused.
pub open spec fn token_pairing(
    token: PairingTokenView,
    request: TrustRequest,
    now_ms: i64,
) -> Result<Seq<u8>, HubErrorView> {
    match secure::verification(
        request.pairing_request.sign_public_key@,
        request.signature@,
        secure::pairing_request_data(request.pairing_request),
    ) {
        Err(error) => Err(HubErrorView::Secure(error)),
        Ok(holds) => if !holds {
            Err(HubErrorView::InvalidPairingSignature)
        } else if token.value == 0 {
            Err(HubErrorView::TokenNotRequested)
        } else if token.expires_at_ms < now_ms {
            Err(HubErrorView::TokenExpired)
        } else if request.pairing_request.token != token.value {
            Err(HubErrorView::TokenMismatch)
        } else {
            match secure::decoded_key(request.pairing_request.crypt_public_key@) {
                Ok(key) => Ok(key),
                Err(error) => Err(HubErrorView::Secure(error)),
            }
        },
    }
}

/// Whether this is the server's signed answer to a pairing by token. Its signature holds under the
/// key that it names.
pub open spec fn is_trust_response(
    keys: ServerKeys,
    now_ms: i64,
    response: TrustResponse,
) -> bool {
    let body = response.pairing_response;
    let data = secure::keys_data(body.sign_public_key@, body.crypt_public_key@, now_ms);
    &&& secure::public_key_text(keys.sign_secret()) == Some(body.sign_public_key@)
    &&& secure::public_key_text(keys.crypt_secret()) == Some(body.crypt_public_key@)
    &&& body.timestamp == now_ms
    &&& secure::signature_text(keys.sign_secret(), data) == Some(response.signature@)
    &&& secure::verification(body.sign_public_key@, response.signature@, data) == Ok::<
        bool,
        SecureErrorView,
    >(true)
}

/// Whether the server cannot answer, and why: its signature under the bytes came out as none.
pub open spec fn cannot_answer(keys: ServerKeys, data: Seq<u8>, error: HubErrorView) -> bool {
    &&& error == HubErrorView::Secure(SecureErrorView::Signing)
    &&& secure::signature_text(keys.sign_secret(), data) is None
}

/// The bytes that the server signs in a pairing at that time.
pub open spec fn answer_data(keys: ServerKeys, now_ms: i64) -> Seq<u8> {
    secure::keys_data(
        secure::public_key_text(keys.sign_secret())->0,
        secure::public_key_text(keys.crypt_secret())->0,
        now_ms,
    )
}

/// What comes of a key exchange: the client's key document, or why it is refused.
pub open spec fn key_exchange(request: KeyExchangeRequest) -> Result<Seq<u8>, HubErrorView> {
    match secure::verification(
        request.sign_public_key@,
        request.signature@,
        secure::keys_data(
            request.sign_public_key@,
            request.crypt_public_key@,
            request.timestamp,
        ),
    ) {
        Err(error) => Err(HubErrorView::Secure(error)),
        Ok(holds) => if !holds {
            Err(HubErrorView::InvalidKeyExchangeSignature)
        } else {
            match secure::decoded_key(request.crypt_public_key@) {
                Ok(key) => Ok(key),
                Err(error) => Err(HubErrorView::Secure(error)),
            }
        },
    }
}

/// What comes of the confirmation of a key exchange: the client's key document, or why it is
/// refused.
pub open spec fn confirmation(
    exchanges: Map<Seq<char>, PendingKeyExchangeView>,
    id: Seq<char>,
    request: TrustConfirmRequest,
    now_ms: i64,
) -> Result<Seq<u8>, HubErrorView> {
    if !exchanges.contains_key(id) {
        Err(HubErrorView::KeyExchangeNotFound)
    } else if exchanges[id].expires_at_ms < now_ms {
        Err(HubErrorView::KeyExchangeExpired)
    } else {
        match secure::verification(
            exchanges[id].sign_public_key,
            request.signature@,
            secure::time_data(request.timestamp),
        ) {
            Err(error) => Err(HubErrorView::Secure(error)),
            Ok(holds) => if holds {
                Ok(exchanges[id].crypt_public_key)
            } else {
                Err(HubErrorView::InvalidConfirmationSignature)
            },
        }
    }
}

impl HubView {
    /// The hub once that client's key exchange is open: the server's key document is `own`, the
    /// client's is `key`.
    pub open spec fn with_exchange(
        self,
        id: Seq<char>,
        request: KeyExchangeRequest,
        own: Seq<u8>,
        key: Seq<u8>,
        now_ms: i64,
    ) -> HubView {
        HubView {
            pending_key_exchanges: self.pending_key_exchanges.insert(
                id,
                PendingKeyExchangeView {
                    sign_public_key: request.sign_public_key@,
                    crypt_public_key: key,
                    sas: secure::sas_of(own, key) as u32,
                    expires_at_ms: (now_ms + PAIRING_TOKEN_TTL_MS) as i64,
                },
            ),
            ..self
        }
    }

    /// The hub once that client's key exchange is confirmed.
    pub open spec fn with_confirmed(self, id: Seq<char>, key: Seq<u8>, now_ms: i64) -> HubView {
        HubView {
            pending_key_exchanges: self.pending_key_exchanges.remove(id),
            ..self
        }.with_client(id, now_ms, key)
    }
}

/// Whether this comes of the confirmation of a key exchange: the hub before it, the hub after it,
/// and what is handed back.
pub open spec fn is_confirmation(
    before: HubView,
    keys: ServerKeys,
    id: Seq<char>,
    request: TrustConfirmRequest,
    now_ms: i64,
    after: HubView,
    outcome: Result<(TrustConfirmResponse, StoredClient), HubError>,
) -> bool {
    match confirmation(before.pending_key_exchanges, id, request, now_ms) {
        Err(refusal) => {
            &&& outcome matches Err(error) && error@ == refusal
            &&& after == before
        },
        Ok(key) => {
            &&& after == before.with_confirmed(id, key, now_ms)
            &&& match outcome {
                Ok((response, record)) => {
                    &&& response.timestamp == now_ms
                    &&& secure::signature_text(
                        keys.sign_secret(),
                        secure::time_data(now_ms),
                    ) == Some(response.signature@)
                    &&& secure::is_accepted(
                        keys.sign_secret(),
                        response.signature@,
                        secure::time_data(now_ms),
                    )
                    &&& record@ == new_client(id, now_ms, key)
                },
                Err(error) => cannot_answer(keys, secure::time_data(now_ms), error@),
            }
        },
    }
}

impl Hub {
    fn pair(&mut self, app_instance_id: &str, key: Vec<u8>, now_ms: i64) -> (record: StoredClient)
        ensures
            final(self).server_keys() == old(self).server_keys(),
            final(self)@ == old(self)@.with_client(app_instance_id@, now_ms, key@),
            record@ == new_client(app_instance_id@, now_ms, key@),
    {
        self.client_crypt_keys.insert(app_instance_id.to_owned(), bytes::copy(key.as_slice()));
        let client = PairedClient {
            app_instance_id: app_instance_id.to_owned(),
            paired_at_ms: now_ms,
        };
        self.clients.insert(app_instance_id.to_owned(), client);
        StoredClient {
            app_instance_id: app_instance_id.to_owned(),
            paired_at_ms: now_ms,
            crypt_public_key: key,
            sync_info_json: None,
            last_seen_ms: None,
        }
    }

    fn trust_response(&self, now_ms: i64) -> (response: Result<TrustResponse, HubError>)
        ensures
            match response {
                Ok(response) => is_trust_response(self.server_keys(), now_ms, response),
                Err(error) => cannot_answer(
                    self.server_keys(),
                    answer_data(self.server_keys(), now_ms),
                    error@,
                ),
            },
    {
        let sign_public_key = match self.keys.sign_public_key_der_b64() {
            Ok(key) => key,
            Err(error) => return Err(HubError::Secure(error)),
        };
        let crypt_public_key = match self.keys.crypt_public_key_der_b64() {
            Ok(key) => key,
            Err(error) => return Err(HubError::Secure(error)),
        };
        let pairing_response = PairingResponse {
            sign_public_key,
            crypt_public_key,
            timestamp: now_ms,
        };
        match sign_pairing_response(&self.keys, &pairing_response) {
            Ok(signature) => Ok(TrustResponse { pairing_response, signature }),
            Err(error) => Err(HubError::Secure(error)),
        }
    }

    /// Pairs with a client that shows the token. The client's record is then to be kept.
    pub fn trust_v1(
        &mut self,
        app_instance_id: &str,
        request: &TrustRequest,
        now_ms: i64,
    ) -> (outcome: Result<(TrustResponse, StoredClient), HubError>)
        ensures
            final(self).server_keys() == old(self).server_keys(),
            match token_pairing(old(self)@.pairing_token, *request, now_ms) {
                Err(refusal) => {
                    &&& outcome matches Err(error) && error@ == refusal
                    &&& final(self)@ == old(self)@
                },
                Ok(key) => {
                    &&& final(self)@ == old(self)@.with_client(app_instance_id@, now_ms, key)
                    &&& match outcome {
                        Ok((response, record)) => {
                            &&& is_trust_response(old(self).server_keys(), now_ms, response)
                            &&& record@ == new_client(app_instance_id@, now_ms, key)
                        },
                        Err(error) => cannot_answer(
                            old(self).server_keys(),
                            answer_data(old(self).server_keys(), now_ms),
                            error@,
                        ),
                    }
                },
            },
    {
        match verify_pairing_request(request) {
            Ok(holds) => if !holds {
                return Err(HubError::InvalidPairingSignature);
            },
            Err(error) => return Err(HubError::Secure(error)),
        }
        if self.pairing_token.value == 0 {
            return Err(HubError::TokenNotRequested);
        }
        if self.pairing_token.expires_at_ms < now_ms {
            return Err(HubError::TokenExpired);
        }
        if request.pairing_request.token != self.pairing_token.value {
            return Err(HubError::TokenMismatch);
        }
        let key = match client_crypt_public_key(request) {
            Ok(key) => key,
            Err(error) => return Err(HubError::Secure(error)),
        };
        let record = self.pair(app_instance_id, key, now_ms);
        match self.trust_response(now_ms) {
            Ok(response) => Ok((response, record)),
            Err(error) => Err(error),
        }
    }

    /// Opens a pairing by short code: both sides exchange keys, and the code that both work out is
    /// to be compared by whoever pairs them.
    pub fn exchange_keys_v2(
        &mut self,
        app_instance_id: &str,
        request: &KeyExchangeRequest,
        now_ms: i64,
    ) -> (outcome: Result<(KeyExchangeResponse, u32), HubError>)
        requires
            now_ms <= i64::MAX - PAIRING_TOKEN_TTL_MS,
        ensures
            final(self).server_keys() == old(self).server_keys(),
            match key_exchange(*request) {
                Err(refusal) => {
                    &&& outcome matches Err(error) && error@ == refusal
                    &&& final(self)@ == old(self)@
                },
                Ok(key) => {
                    let own = secure::public_document(old(self).server_keys().crypt_secret())->0;
                    &&& secure::public_document(old(self).server_keys().crypt_secret()) is Some
                    &&& final(self)@ == old(self)@.with_exchange(
                        app_instance_id@,
                        *request,
                        own,
                        key,
                        now_ms,
                    )
                    &&& match outcome {
                        Ok((response, sas)) => {
                            let data = secure::keys_data(
                                response.sign_public_key@,
                                response.crypt_public_key@,
                                now_ms,
                            );
                            &&& sas == secure::sas_of(own, key)
                            &&& sas < 1_000_000
                            &&& secure::public_key_text(
                                old(self).server_keys().sign_secret(),
                            ) == Some(response.sign_public_key@)
                            &&& secure::public_key_text(
                                old(self).server_keys().crypt_secret(),
                            ) == Some(response.crypt_public_key@)
                            &&& response.timestamp == now_ms
                            &&& secure::signature_text(
                                old(self).server_keys().sign_secret(),
                                data,
                            ) == Some(response.signature@)
                            &&& secure::verification(
                                response.sign_public_key@,
                                response.signature@,
                                data,
                            ) == Ok::<bool, SecureErrorView>(true)
                        },
                        Err(error) => cannot_answer(
                            old(self).server_keys(),
                            answer_data(old(self).server_keys(), now_ms),
                            error@,
                        ),
                    }
                },
            },
    {
        match verify_key_exchange_request(request) {
            Ok(holds) => if !holds {
                return Err(HubError::InvalidKeyExchangeSignature);
            },
            Err(error) => return Err(HubError::Secure(error)),
        }
        let client_key = match decode_public_key_b64(request.crypt_public_key.as_str()) {
            Ok(key) => key,
            Err(error) => return Err(HubError::Secure(error)),
        };
        let own_text = match self.keys.crypt_public_key_der_b64() {
            Ok(key) => key,
            Err(error) => return Err(HubError::Secure(error)),
        };
        let own = match decode_public_key_b64(own_text.as_str()) {
            Ok(key) => key,
            Err(error) => return Err(HubError::Secure(error)),
        };
        let sas = compute_sas(own.as_slice(), client_key.as_slice());
        let pending = PendingKeyExchange {
            sign_public_key: request.sign_public_key.clone(),
            crypt_public_key: client_key,
            sas,
            expires_at_ms: now_ms + PAIRING_TOKEN_TTL_MS,
        };
        self.pending_key_exchanges.insert(app_instance_id.to_owned(), pending);
        match build_key_exchange_response(&self.keys, now_ms) {
            Ok(response) => Ok((response, sas)),
            Err(error) => Err(HubError::Secure(error)),
        }
    }

    /// Pairs with a client that confirms its key exchange. The client's record is then to be kept.
    pub fn confirm_trust_v2(
        &mut self,
        app_instance_id: &str,
        request: &TrustConfirmRequest,
        now_ms: i64,
    ) -> (outcome: Result<(TrustConfirmResponse, StoredClient), HubError>)
        ensures
            final(self).server_keys() == old(self).server_keys(),
            is_confirmation(
                old(self)@,
                old(self).server_keys(),
                app_instance_id@,
                *request,
                now_ms,
                final(self)@,
                outcome,
            ),
    {
        let key = match self.pending_key_exchanges.get(app_instance_id) {
            None => return Err(HubError::KeyExchangeNotFound),
            Some(pending) => {
                if pending.expires_at_ms < now_ms {
                    return Err(HubError::KeyExchangeExpired);
                }
                match verify_trust_confirm(pending.sign_public_key.as_str(), request) {
                    Ok(holds) => if !holds {
                        return Err(HubError::InvalidConfirmationSignature);
                    },
                    Err(error) => return Err(HubError::Secure(error)),
                }
                bytes::copy(pending.crypt_public_key.as_slice())
            },
        };
        self.pending_key_exchanges.remove(app_instance_id);
        let record = self.pair(app_instance_id, key, now_ms);
        match build_trust_confirm_response(&self.keys, now_ms) {
            Ok(response) => Ok((response, record)),
            Err(error) => Err(HubError::Secure(error)),
        }
    }

    /// Forgets a client. Its record is then to be removed.
    pub fn remove_client(&mut self, app_instance_id: &str)
        ensures
            final(self).server_keys() == old(self).server_keys(),
            final(self)@ == old(self)@.without_client(app_instance_id@),
    {
        self.clients.remove(app_instance_id);
        self.client_crypt_keys.remove(app_instance_id);
        self.client_sync_infos.remove(app_instance_id);
    }

    /// Remembers what a paired client tells about itself.
    pub fn update_client_sync_info(&mut self, app_instance_id: &str, info: SyncInfo) -> (outcome:
        Result<(), HubError>)
        ensures
            final(self).server_keys() == old(self).server_keys(),
            if old(self)@.clients.contains_key(app_instance_id@) {
                &&& outcome is Ok
                &&& final(self)@ == (HubView {
                    client_sync_infos: old(self)@.client_sync_infos.insert(
                        app_instance_id@,
                        info@,
                    ),
                    ..old(self)@
                })
            } else {
                &&& outcome matches Err(error) && error@ == HubErrorView::UnpairedClient
                &&& final(self)@ == old(self)@
            },
    {
        if !self.is_paired(app_instance_id) {
            return Err(HubError::UnpairedClient);
        }
        self.client_sync_infos.insert(app_instance_id.to_owned(), info);
        Ok(())
    }
}

/// What is kept of a clipboard entry beside the entry itself.
#[derive(Debug)]
pub struct PasteRecord {
    pub paste_id: i64,
    pub source: String,
    pub paste_type: Option<i64>,
    pub size: Option<i64>,
}

/// The name under which the hub remembers a client's entry.
pub open spec fn paste_key(source: Seq<char>, paste_id: i64) -> Seq<char> {
    source + ":"@ + text::decimal(paste_id as int)
}

/// How many pieces a file of that size is sent in.
pub open spec fn chunk_count_of(size: u64) -> usize {
    ((size + FILE_CHUNK_SIZE - 1) / FILE_CHUNK_SIZE as int) as usize
}

/// How many pieces a file of that size is sent in.
pub fn count_chunks(size: u64) -> (count: usize)
    ensures
        count == chunk_count_of(size),
{
    #[verifier::truncate]
    let count = if size % FILE_CHUNK_SIZE == 0 {
        (size / FILE_CHUNK_SIZE) as usize
    } else {
        (size / FILE_CHUNK_SIZE + 1) as usize
    };
    count
}

/// Whether a client may send a file, and in how many pieces.
pub open spec fn push_check(hub: HubView, id: Seq<char>, paste: PasteView) -> Result<
    usize,
    HubErrorView,
> {
    if !hub.clients.contains_key(id) {
        Err(HubErrorView::UnpairedClient)
    } else {
        match paste.unsigned(FIELD_SIZE@) {
            None => Err(HubErrorView::MissingSize),
            Some(size) => if size == 0 {
                Err(HubErrorView::SizeNotPositive)
            } else {
                Ok(chunk_count_of(size))
            },
        }
    }
}

/// Whether the client's file is on its way under that token.
pub open spec fn session_check(
    hub: HubView,
    id: Seq<char>,
    paste_id: i64,
    token: Seq<char>,
) -> Result<(), HubErrorView> {
    if !hub.push_sessions.contains_key(paste_id) {
        Err(HubErrorView::PushSessionNotFound)
    } else if hub.push_sessions[paste_id].from_app_instance_id != id {
        Err(HubErrorView::PushOwnerMismatch)
    } else if hub.push_sessions[paste_id].token != token {
        Err(HubErrorView::InvalidPushToken)
    } else {
        Ok(())
    }
}

/// Whether a piece of the client's file is taken in.
pub open spec fn chunk_check(
    hub: HubView,
    id: Seq<char>,
    paste_id: i64,
    index: usize,
    token: Seq<char>,
) -> Result<(), HubErrorView> {
    match session_check(hub, id, paste_id, token) {
        Err(error) => Err(error),
        Ok(_) => if index < hub.push_sessions[paste_id].chunk_count {
            Ok(())
        } else {
            Err(HubErrorView::ChunkOutOfRange)
        },
    }
}

/// The name of the file that holds a piece.
pub open spec fn chunk_file(index: usize) -> Seq<char> {
    text::decimal(index as int) + ".chunk"@
}

/// The name of the file that holds a piece.
pub fn chunk_file_name(index: usize) -> (name: String)
    ensures
        name@ == chunk_file(index),
{
    text::unsigned_text(index as u64).concat(".chunk")
}

/// The places, in order, at which nothing has come.
pub open spec fn missing(received: Seq<bool>) -> Seq<usize>
    decreases received.len(),
{
    if received.len() == 0 {
        Seq::empty()
    } else if received.last() {
        missing(received.drop_last())
    } else {
        missing(received.drop_last()).push((received.len() - 1) as usize)
    }
}

/// A piece is missing exactly where nothing has come, and the missing pieces come in ascending order.
pub proof fn law_missing(received: Seq<bool>)
    requires
        received.len() <= usize::MAX,
    ensures
        forall|i: usize|
            #[trigger] missing(received).contains(i) <==> i < received.len() && !received[i as int],
        missing(received).len() == 0 <==> forall|i: int| 0 <= i < received.len() ==> received[i],
        forall|i: int, j: int|
            0 <= i < j < missing(received).len() ==> missing(received)[i] < missing(received)[j],
    decreases received.len(),
{
    if received.len() > 0 {
        let rest = received.drop_last();
        let last = (received.len() - 1) as usize;
        law_missing(rest);
        assert forall|i: usize| #[trigger] missing(received).contains(i) <==> i < received.len()
            && !received[i as int] by {
            if !received.last() {
                let list = missing(rest);
                assert(list.push(last)[list.len() as int] == last);
                if list.contains(i) {
                    let k = choose|k: int| 0 <= k < list.len() && list[k] == i;
                    assert(list.push(last)[k] == i);
                }
                if list.push(last).contains(i) && i != last {
                    let k = choose|k: int|
                        0 <= k < list.push(last).len() && list.push(last)[k] == i;
                    assert(list[k] == i);
                }
            }
            if i < last {
                assert(rest[i as int] == received[i as int]);
            }
        }
        assert forall|i: int, j: int| 0 <= i < j < missing(received).len() implies missing(
            received,
        )[i] < missing(received)[j] by {
            let list = missing(rest);
            assert(list.contains(list[i]) || i >= list.len());
        }
        if missing(received).len() == 0 {
            assert forall|i: int| 0 <= i < received.len() implies received[i] by {
                if i < rest.len() {
                    assert(rest[i]);
                }
            }
        } else {
            assert(missing(received).contains(missing(received)[0]));
        }
    }
}

impl Hub {
    /// The clients that something from that client goes out to.
    pub fn targets(&self, from_app_instance_id: &str) -> (targets: Vec<Target>)
        ensures
            self.informed_order().no_duplicates(),
            self.informed_order().to_set() == self@.client_sync_infos.dom(),
            delivery::target_views(targets@) == delivery::targets_of(
                self.informed_order(),
                self@.client_sync_infos,
                from_app_instance_id@,
            ),
    {
        let mut targets: Vec<Target> = Vec::new();
        let count = self.client_sync_infos.len();
        let ghost order = self.client_sync_infos.keys();
        let mut i: usize = 0;
        assert(order.take(0) =~= Seq::empty());
        assert(delivery::target_views(targets@) =~= Seq::empty());
        while i < count
            invariant
                i <= count,
                count == order.len(),
                order == self.client_sync_infos.keys(),
                delivery::target_views(targets@) == delivery::targets_of(
                    order.take(i as int),
                    self.client_sync_infos@,
                    from_app_instance_id@,
                ),
            decreases count - i,
        {
            let entry = self.client_sync_infos.entry(i);
            let ghost before = delivery::target_views(targets@);
            if !text::same_text(entry.0.as_str(), from_app_instance_id) {
                targets.push(Target { client_id: entry.0.clone(), info: entry.1.clone() });
                assert(delivery::target_views(targets@) =~= before.push((entry.0@, entry.1@)));
            }
            i += 1;
            assert(order.take(i as int).drop_last() =~= order.take(i - 1));
            assert(order.take(i as int).last() == order[i - 1]);
        }
        assert(order.take(i as int) =~= order);
        targets
    }

    /// What is to be kept of an entry that a client sends. Once it is kept, the hub remembers the
    /// entry by [`Hub::keep_paste`].
    pub fn receive_paste(&self, app_instance_id: &str, paste: &Paste, now_ms: i64) -> (record:
        Result<PasteRecord, HubError>)
        ensures
            match record {
                Ok(record) => {
                    &&& self@.clients.contains_key(app_instance_id@)
                    &&& record.paste_id == match paste@.signed(FIELD_ID@) {
                        Some(id) => id,
                        None => now_ms,
                    }
                    &&& record.source@ == app_instance_id@
                    &&& record.paste_type == paste@.signed(FIELD_PASTE_TYPE@)
                    &&& record.size == paste@.signed(FIELD_SIZE@)
                },
                Err(error) => {
                    &&& !self@.clients.contains_key(app_instance_id@)
                    &&& error@ == HubErrorView::UnpairedClient
                },
            },
    {
        if !self.is_paired(app_instance_id) {
            return Err(HubError::UnpairedClient);
        }
        let paste_id = match paste.signed(FIELD_ID) {
            Some(id) => id,
            None => now_ms,
        };
        Ok(
            PasteRecord {
                paste_id,
                source: app_instance_id.to_owned(),
                paste_type: paste.signed(FIELD_PASTE_TYPE),
                size: paste.signed(FIELD_SIZE),
            },
        )
    }

    /// Remembers an entry that is kept.
    pub fn keep_paste(&mut self, record: &PasteRecord, paste: Paste)
        ensures
            final(self).server_keys() == old(self).server_keys(),
            final(self)@ == (HubView {
                pastes: old(self)@.pastes.insert(
                    paste_key(record.source@, record.paste_id),
                    paste@,
                ),
                ..old(self)@
            }),
    {
        let key = record.source.clone().concat(":").concat(
            text::signed_text(record.paste_id).as_str(),
        );
        self.pastes.insert(key, paste);
    }

    /// Whether a client may send a file, and in how many pieces.
    pub fn check_push(&self, app_instance_id: &str, paste: &Paste) -> (count: Result<
        usize,
        HubError,
    >)
        ensures
            secure::error_view(count) == push_check(self@, app_instance_id@, paste@),
    {
        if !self.is_paired(app_instance_id) {
            return Err(HubError::UnpairedClient);
        }
        match paste.unsigned(FIELD_SIZE) {
            None => Err(HubError::MissingSize),
            Some(size) => if size == 0 {
                Err(HubError::SizeNotPositive)
            } else {
                Ok(count_chunks(size))
            },
        }
    }

    /// Expects a client's file under that token. Its pieces go into the directory that is named by
    /// the number of the entry, which is the time.
    pub fn open_push(
        &mut self,
        app_instance_id: &str,
        paste: Paste,
        token: String,
        now_ms: i64,
    ) -> (response: Result<PushPrepareResponse, HubError>)
        requires
            old(self)@.wf(),
        ensures
            final(self)@.wf(),
            final(self).server_keys() == old(self).server_keys(),
            push_opened(
                old(self)@,
                final(self)@,
                app_instance_id@,
                paste@,
                token@,
                now_ms,
                response,
            ),
    {
        match self.check_push(app_instance_id, &paste) {
            Err(error) => Err(error),
            Ok(chunk_count) => {
                let session = PushSession {
                    paste_id: now_ms,
                    from_app_instance_id: app_instance_id.to_owned(),
                    paste,
                    token: token.clone(),
                    chunk_count,
                    received: vec![false; chunk_count],
                };
                assert(session.received@ =~= Seq::new(chunk_count as nat, |i: int| false));
                self.push_sessions.insert(now_ms, session);
                Ok(
                    PushPrepareResponse {
                        paste_id: now_ms,
                        chunk_count,
                        chunk_size: FILE_CHUNK_SIZE,
                        session_token: token,
                        need_icon: false,
                    },
                )
            },
        }
    }

    /// Expects a client's file under a new token.
    pub fn prepare_push(&mut self, app_instance_id: &str, paste: Paste, now_ms: i64) -> (response:
        Result<PushPrepareResponse, HubError>)
        requires
            old(self)@.wf(),
        ensures
            final(self)@.wf(),
            final(self).server_keys() == old(self).server_keys(),
            match response {
                Ok(answer) => {
                    &&& random::is_uuid_text(answer.session_token@)
                    &&& push_opened(
                        old(self)@,
                        final(self)@,
                        app_instance_id@,
                        paste@,
                        answer.session_token@,
                        now_ms,
                        response,
                    )
                },
                Err(error) => {
                    &&& push_check(old(self)@, app_instance_id@, paste@) == Err::<
                        usize,
                        HubErrorView,
                    >(error@)
                    &&& final(self)@ == old(self)@
                },
            },
    {
        let token = random::new_uuid();
        self.open_push(app_instance_id, paste, token, now_ms)
    }

    fn check_session(&self, app_instance_id: &str, paste_id: i64, token: &str) -> (session: Result<
        &PushSession,
        HubError,
    >)
        ensures
            match session {
                Ok(session) => {
                    &&& session_check(self@, app_instance_id@, paste_id, token@) is Ok
                    &&& session@ == self@.push_sessions[paste_id]
                },
                Err(error) => session_check(self@, app_instance_id@, paste_id, token@) == Err::<
                    (),
                    HubErrorView,
                >(error@),
            },
    {
        match self.push_sessions.get(&paste_id) {
            None => Err(HubError::PushSessionNotFound),
            Some(session) => {
                if !text::same_text(session.from_app_instance_id.as_str(), app_instance_id) {
                    return Err(HubError::PushOwnerMismatch);
                }
                if !text::same_text(session.token.as_str(), token) {
                    return Err(HubError::InvalidPushToken);
                }
                Ok(session)
            },
        }
    }

    /// The directory and the file that a piece of a client's file goes into, if it is taken in.
    pub fn locate_push_chunk(
        &self,
        app_instance_id: &str,
        paste_id: i64,
        chunk_index: usize,
        token: &str,
    ) -> (place: Result<(String, String), HubError>)
        ensures
            match place {
                Ok((directory, file)) => {
                    &&& chunk_check(self@, app_instance_id@, paste_id, chunk_index, token@) is Ok
                    &&& directory@ == text::decimal(
                        self@.push_sessions[paste_id].paste_id as int,
                    )
                    &&& file@ == chunk_file(chunk_index)
                },
                Err(error) => chunk_check(
                    self@,
                    app_instance_id@,
                    paste_id,
                    chunk_index,
                    token@,
                ) == Err::<(), HubErrorView>(error@),
            },
    {
        match self.check_session(app_instance_id, paste_id, token) {
            Err(error) => Err(error),
            Ok(session) => {
                if chunk_index >= session.chunk_count {
                    return Err(HubError::ChunkOutOfRange);
                }
                Ok((text::signed_text(session.paste_id), chunk_file_name(chunk_index)))
            },
        }
    }

    /// Notes that a piece of a client's file has come and is kept.
    pub fn store_push_chunk(
        &mut self,
        app_instance_id: &str,
        paste_id: i64,
        chunk_index: usize,
        token: &str,
    ) -> (outcome: Result<(), HubError>)
        requires
            old(self)@.wf(),
        ensures
            final(self)@.wf(),
            final(self).server_keys() == old(self).server_keys(),
            secure::error_view(outcome) == chunk_check(
                old(self)@,
                app_instance_id@,
                paste_id,
                chunk_index,
                token@,
            ),
            final(self)@ == (if outcome is Ok {
                old(self)@.with_chunk(paste_id, chunk_index)
            } else {
                old(self)@
            }),
    {
        match self.check_session(app_instance_id, paste_id, token) {
            Err(error) => return Err(error),
            Ok(session) => if chunk_index >= session.chunk_count {
                return Err(HubError::ChunkOutOfRange);
            },
        }
        let ghost before = self@;
        if let Some(mut session) = self.push_sessions.remove(&paste_id) {
            session.received[chunk_index] = true;
            self.push_sessions.insert(paste_id, session);
        }
        assert(self@.push_sessions =~= before.with_chunk(paste_id, chunk_index).push_sessions);
        Ok(())
    }

    /// Ends the sending of a file: it has come whole, or pieces of it are missing and it stays on
    /// its way.
    pub fn complete_push(&mut self, app_instance_id: &str, paste_id: i64, token: &str) -> (outcome:
        Result<(PushCompleteResponse, Option<CompletedPush>), HubError>)
        requires
            old(self)@.wf(),
        ensures
            final(self)@.wf(),
            final(self).server_keys() == old(self).server_keys(),
            match session_check(old(self)@, app_instance_id@, paste_id, token@) {
                Err(refusal) => {
                    &&& outcome matches Err(error) && error@ == refusal
                    &&& final(self)@ == old(self)@
                },
                Ok(_) => {
                    let session = old(self)@.push_sessions[paste_id];
                    &&& outcome matches Ok((response, completed))
                    &&& response.missing_chunks@ == missing(session.received)
                    &&& if missing(session.received).len() > 0 {
                        completed is None && final(self)@ == old(self)@
                    } else {
                        &&& completed matches Some(completed)
                        &&& is_completed(session, completed)
                        &&& final(self)@ == (HubView {
                            push_sessions: old(self)@.push_sessions.remove(paste_id),
                            ..old(self)@
                        })
                    }
                },
            },
    {
        let missing_chunks = match self.check_session(app_instance_id, paste_id, token) {
            Err(error) => return Err(error),
            Ok(session) => missing_places(&session.received),
        };
        if missing_chunks.len() > 0 {
            return Ok((PushCompleteResponse { missing_chunks }, None));
        }
        match self.push_sessions.remove(&paste_id) {
            Some(session) => {
                let completed = CompletedPush {
                    paste_id: session.paste_id,
                    from_app_instance_id: session.from_app_instance_id,
                    paste: session.paste,
                    chunk_count: session.chunk_count,
                    directory: text::signed_text(session.paste_id),
                };
                Ok((PushCompleteResponse { missing_chunks }, Some(completed)))
            },
            None => Err(HubError::PushSessionNotFound),
        }
    }

    /// Remembers a file that the server has whole.
    pub fn keep_file(&mut self, paste_id: i64, directory: String, chunk_count: usize)
        ensures
            final(self).server_keys() == old(self).server_keys(),
            final(self)@ == (HubView {
                stored_files: old(self)@.stored_files.insert(
                    paste_id,
                    StoredFileView { directory: directory@, chunk_count },
                ),
                ..old(self)@
            }),
    {
        self.stored_files.insert(paste_id, StoredFile { directory, chunk_count });
    }

    /// The directory and the file that hold a piece of a file that the server has whole, where the
    /// piece is not kept elsewhere.
    pub fn read_file_chunk(&self, paste_id: i64, chunk_index: usize) -> (place: Result<
        (String, String),
        HubError,
    >)
        ensures
            if !self@.stored_files.contains_key(paste_id) {
                place matches Err(error) && error@ == HubErrorView::StoredFileNotFound
            } else if chunk_index >= self@.stored_files[paste_id].chunk_count {
                place matches Err(error) && error@ == HubErrorView::ChunkOutOfRange
            } else {
                &&& place matches Ok((directory, file))
                &&& directory@ == self@.stored_files[paste_id].directory
                &&& file@ == chunk_file(chunk_index)
            },
    {
        match self.stored_files.get(&paste_id) {
            None => Err(HubError::StoredFileNotFound),
            Some(stored) => {
                if chunk_index >= stored.chunk_count {
                    return Err(HubError::ChunkOutOfRange);
                }
                Ok((stored.directory.clone(), chunk_file_name(chunk_index)))
            },
        }
    }
}

/// What comes of expecting a client's file under that token.
pub open spec fn push_opened(
    before: HubView,
    after: HubView,
    id: Seq<char>,
    paste: PasteView,
    token: Seq<char>,
    now_ms: i64,
    response: Result<PushPrepareResponse, HubError>,
) -> bool {
    match push_check(before, id, paste) {
        Err(error) => {
            &&& response matches Err(refused) && refused@ == error
            &&& after == before
        },
        Ok(chunk_count) => {
            &&& response matches Ok(response)
            &&& response.paste_id == now_ms
            &&& response.chunk_count == chunk_count
            &&& response.chunk_size == FILE_CHUNK_SIZE
            &&& response.session_token@ == token
            &&& !response.need_icon
            &&& after == HubView {
                push_sessions: before.push_sessions.insert(
                    now_ms,
                    PushSessionView {
                        paste_id: now_ms,
                        from_app_instance_id: id,
                        paste,
                        token,
                        chunk_count,
                        received: Seq::new(chunk_count as nat, |i: int| false),
                    },
                ),
                ..before
            }
        },
    }
}

/// Whether this is the file that came whole in that session.
pub open spec fn is_completed(session: PushSessionView, completed: CompletedPush) -> bool {
    &&& completed.paste_id == session.paste_id
    &&& completed.from_app_instance_id@ == session.from_app_instance_id
    &&& completed.paste@ == session.paste
    &&& completed.chunk_count == session.chunk_count
    &&& completed.directory@ == text::decimal(session.paste_id as int)
}

fn missing_places(received: &Vec<bool>) -> (places: Vec<usize>)
    ensures
        places@ == missing(received@),
{
    let mut places: Vec<usize> = Vec::new();
    let mut i: usize = 0;
    assert(received@.take(0) =~= Seq::empty());
    while i < received.len()
        invariant
            i <= received@.len(),
            places@ == missing(received@.take(i as int)),
        decreases received@.len() - i,
    {
        if !received[i] {
            places.push(i);
        }
        i += 1;
        assert(received@.take(i as int).drop_last() =~= received@.take(i - 1));
        assert(received@.take(i as int).last() == received@[i - 1]);
    }
    assert(received@.take(i as int) =~= received@);
    places
}

/// What is left of a stream once part of it is decrypted.
pub open spec fn after_part(done: Seq<u8>, rest: Result<Seq<u8>, HubErrorView>) -> Result<
    Seq<u8>,
    HubErrorView,
> {
    match rest {
        Ok(rest) => Ok(done + rest),
        Err(error) => Err(error),
    }
}

/// Payloads one after the other, each behind its length.
pub open spec fn framed(payloads: Seq<Seq<u8>>) -> Seq<u8>
    decreases payloads.len(),
{
    if payloads.len() == 0 {
        Seq::empty()
    } else {
        framed(payloads.drop_last()) + (bytes::be32_bytes(payloads.last().len() as u32)
            + payloads.last())
    }
}

/// Bytes, or the error of a key or a payload as the hub's.
pub open spec fn or_secure(result: Result<Seq<u8>, SecureErrorView>) -> Result<
    Seq<u8>,
    HubErrorView,
> {
    match result {
        Ok(bytes) => Ok(bytes),
        Err(error) => Err(HubErrorView::Secure(error)),
    }
}

impl Hub {
    /// What comes of opening a payload of that client's.
    pub open spec fn opened_from(&self, id: Seq<char>, payload: Seq<u8>) -> Result<
        Seq<u8>,
        HubErrorView,
    > {
        if !self@.client_crypt_keys.contains_key(id) {
            Err(HubErrorView::MissingCryptKey)
        } else {
            or_secure(
                secure::opened(
                    self.server_keys().shared_with(self@.client_crypt_keys[id]),
                    payload,
                ),
            )
        }
    }

    /// Whether the payload is that plaintext, sealed for the client: the server and the client open
    /// it to the plaintext again.
    pub open spec fn is_sealed_for(
        &self,
        id: Seq<char>,
        payload: Seq<u8>,
        plaintext: Seq<u8>,
    ) -> bool {
        let keys = self.server_keys();
        let document = self@.client_crypt_keys[id];
        &&& self@.client_crypt_keys.contains_key(id)
        &&& keys.shared_with(document) is Ok
        &&& payload.len() == plaintext.len() / 16 * 16 + 32
        &&& payload == secure::sealed(
            keys.shared_with(document)->Ok_0,
            payload.take(16),
            plaintext,
        )
        &&& self.opened_from(id, payload) == Ok::<Seq<u8>, HubErrorView>(plaintext)
        &&& forall|client: Seq<u8>|
            client.len() == 32 && #[trigger] secure::public_document(client) == Some(document)
                ==> secure::opened(
                secure::shared_key_of(client, secure::public_document(keys.crypt_secret())->0),
                payload,
            ) == Ok::<Seq<u8>, SecureErrorView>(plaintext)
    }

    /// Whether nothing can be sealed for the client, and why.
    pub open spec fn cannot_seal(&self, id: Seq<char>, error: HubErrorView) -> bool {
        if !self@.client_crypt_keys.contains_key(id) {
            error == HubErrorView::MissingCryptKey
        } else {
            &&& self.server_keys().shared_with(self@.client_crypt_keys[id]) matches Err(unreadable)
            &&& error == HubErrorView::Secure(unreadable)
        }
    }

    /// What comes of decrypting a stream of that client's: payload after payload, each behind its
    /// length.
    pub open spec fn stream_content(&self, id: Seq<char>, stream: Seq<u8>) -> Result<
        Seq<u8>,
        HubErrorView,
    >
        decreases stream.len(),
    {
        if stream.len() == 0 {
            Ok(Seq::empty())
        } else if stream.len() < 4 {
            Err(HubErrorView::TruncatedLength)
        } else {
            let size = bytes::be32_value(stream.take(4)) as int;
            if 4 + size > stream.len() {
                Err(HubErrorView::TruncatedChunk)
            } else {
                match self.opened_from(id, stream.subrange(4, 4 + size)) {
                    Err(error) => Err(error),
                    Ok(part) => after_part(part, self.stream_content(id, stream.skip(4 + size))),
                }
            }
        }
    }

    proof fn lemma_stream_append(&self, id: Seq<char>, first: Seq<u8>, second: Seq<u8>)
        requires
            self.stream_content(id, first) is Ok,
        ensures
            self.stream_content(id, first + second) == after_part(
                self.stream_content(id, first)->Ok_0,
                self.stream_content(id, second),
            ),
        decreases first.len(),
    {
        let both = first + second;
        if first.len() == 0 {
            assert(both =~= second);
            if let Ok(rest) = self.stream_content(id, second) {
                assert(self.stream_content(id, first)->Ok_0 + rest =~= rest);
            }
        } else {
            let size = bytes::be32_value(first.take(4)) as int;
            let rest = first.skip(4 + size);
            assert(both.take(4) =~= first.take(4));
            assert(both.subrange(4, 4 + size) =~= first.subrange(4, 4 + size));
            assert(both.skip(4 + size) =~= rest + second);
            self.lemma_stream_append(id, rest, second);
            let part = self.opened_from(id, first.subrange(4, 4 + size))->Ok_0;
            let middle = self.stream_content(id, rest)->Ok_0;
            if let Ok(end) = self.stream_content(id, second) {
                assert(part + (middle + end) =~= (part + middle) + end);
            }
        }
    }

    proof fn lemma_one_frame(&self, id: Seq<char>, payload: Seq<u8>, plaintext: Seq<u8>)
        requires
            payload.len() <= u32::MAX,
            self.opened_from(id, payload) == Ok::<Seq<u8>, HubErrorView>(plaintext),
        ensures
            self.stream_content(
                id,
                bytes::be32_bytes(payload.len() as u32) + payload,
            ) == Ok::<Seq<u8>, HubErrorView>(plaintext),
    {
        let frame = bytes::be32_bytes(payload.len() as u32) + payload;
        bytes::lemma_be32_round_trip(payload.len() as u32);
        assert(frame.take(4) =~= bytes::be32_bytes(payload.len() as u32));
        assert(frame.subrange(4, 4 + payload.len() as int) =~= payload);
        let rest = frame.skip(4 + payload.len() as int);
        assert(rest.len() == 0);
        assert(self.stream_content(id, rest) == Ok::<Seq<u8>, HubErrorView>(Seq::empty()));
        assert(plaintext + Seq::empty() =~= plaintext);
    }

    /// A stream of payloads, each of which opens to some bytes, decrypts to those bytes, one after
    /// the other.
    pub proof fn law_framed_stream(
        &self,
        id: Seq<char>,
        payloads: Seq<Seq<u8>>,
        parts: Seq<Seq<u8>>,
    )
        requires
            payloads.len() == parts.len(),
            forall|i: int|
                0 <= i < payloads.len() ==> (#[trigger] payloads[i]).len() <= u32::MAX
                    && self.opened_from(id, payloads[i]) == Ok::<Seq<u8>, HubErrorView>(parts[i]),
        ensures
            self.stream_content(id, framed(payloads)) == Ok::<Seq<u8>, HubErrorView>(
                pieces::joined(parts),
            ),
        decreases payloads.len(),
    {
        if payloads.len() == 0 {
            assert(pieces::joined(parts) =~= Seq::empty());
        } else {
            let before = payloads.drop_last();
            let last = payloads.last();
            assert(forall|i: int| 0 <= i < before.len() ==> before[i] == payloads[i]);
            self.law_framed_stream(id, before, parts.drop_last());
            self.lemma_one_frame(id, last, parts.last());
            self.lemma_stream_append(
                id,
                framed(before),
                bytes::be32_bytes(last.len() as u32) + last,
            );
            pieces::lemma_joined_last(parts);
        }
    }

    /// Opens a payload of a client's. What the client itself opens to some bytes, with its own
    /// secret number and the server's public key, the server opens to the same bytes.
    pub fn decrypt_from_client(&self, app_instance_id: &str, ciphertext: &[u8]) -> (plaintext:
        Result<Vec<u8>, HubError>)
        ensures
            secure::bytes_or(plaintext) == self.opened_from(app_instance_id@, ciphertext@),
            self@.client_crypt_keys.contains_key(app_instance_id@) ==> (forall|client: Seq<u8>|
                client.len() == 32 && #[trigger] secure::public_document(client) == Some(
                    self@.client_crypt_keys[app_instance_id@],
                ) && secure::point_of(client) is Some ==> secure::bytes_or(plaintext) == or_secure(
                    secure::opened(
                        secure::shared_key_of(
                            client,
                            secure::public_document(self.server_keys().crypt_secret())->0,
                        ),
                        ciphertext@,
                    ),
                )),
    {
        match self.client_crypt_keys.get(app_instance_id) {
            None => Err(HubError::MissingCryptKey),
            Some(key) => match self.keys.decrypt_from_client(key.as_slice(), ciphertext) {
                Ok(plaintext) => Ok(plaintext),
                Err(error) => Err(HubError::Secure(error)),
            },
        }
    }

    /// Seals bytes for a client.
    pub fn encrypt_for_client(&self, app_instance_id: &str, plaintext: &[u8]) -> (payload: Result<
        Vec<u8>,
        HubError,
    >)
        ensures
            match payload {
                Ok(payload) => self.is_sealed_for(app_instance_id@, payload@, plaintext@),
                Err(error) => self.cannot_seal(app_instance_id@, error@),
            },
    {
        match self.client_crypt_keys.get(app_instance_id) {
            None => Err(HubError::MissingCryptKey),
            Some(key) => match self.keys.encrypt_for_client(key.as_slice(), plaintext) {
                Ok(payload) => Ok(payload),
                Err(error) => Err(HubError::Secure(error)),
            },
        }
    }

    /// Whether this is that plaintext as a stream for the client: its pieces, each sealed, one
    /// after the other.
    pub open spec fn is_stream_for(
        &self,
        id: Seq<char>,
        stream: Seq<u8>,
        plaintext: Seq<u8>,
    ) -> bool {
        exists|payloads: Seq<Seq<u8>>|
            self.are_sealed_pieces(id, payloads, plaintext) && stream == #[trigger] framed(
                payloads,
            )
    }

    /// Whether these are the pieces of that plaintext, each sealed for the client.
    pub open spec fn are_sealed_pieces(
        &self,
        id: Seq<char>,
        payloads: Seq<Seq<u8>>,
        plaintext: Seq<u8>,
    ) -> bool {
        let parts = pieces::pieces(plaintext, ENCRYPT_STREAM_CHUNK_SIZE as nat);
        &&& payloads.len() == parts.len()
        &&& forall|i: int|
            0 <= i < parts.len() ==> self.is_sealed_for(id, #[trigger] payloads[i], parts[i])
    }

    /// Seals bytes for a client as a stream. The server decrypts the stream to the bytes again.
    pub fn encrypt_stream_for_client(&self, app_instance_id: &str, plaintext: &[u8]) -> (stream:
        Result<Vec<u8>, HubError>)
        ensures
            match stream {
                Ok(stream) => {
                    &&& self.is_stream_for(app_instance_id@, stream@, plaintext@)
                    &&& self.stream_content(app_instance_id@, stream@) == Ok::<Seq<u8>, HubErrorView>(
                        plaintext@,
                    )
                },
                Err(error) => plaintext@.len() > 0 && self.cannot_seal(app_instance_id@, error@),
            },
    {
        let mut output: Vec<u8> = Vec::new();
        let ghost id = app_instance_id@;
        let ghost whole = plaintext@;
        let ghost size = ENCRYPT_STREAM_CHUNK_SIZE as nat;
        let ghost parts = pieces::pieces(whole, size);
        let ghost mut payloads: Seq<Seq<u8>> = Seq::empty();
        let mut start: usize = 0;
        let len = plaintext.len();
        proof {
            assert(whole.skip(0) =~= whole);
            assert(parts.skip(0) =~= parts);
            assert(whole.take(0) =~= Seq::empty());
        }
        while start < len
            invariant
                start <= len,
                len == whole.len(),
                whole == plaintext@,
                id == app_instance_id@,
                size == ENCRYPT_STREAM_CHUNK_SIZE,
                parts == pieces::pieces(whole, size),
                payloads.len() <= parts.len(),
                pieces::pieces(whole.skip(start as int), size) == parts.skip(
                    payloads.len() as int,
                ),
                forall|i: int|
                    0 <= i < payloads.len() ==> self.is_sealed_for(
                        id,
                        #[trigger] payloads[i],
                        parts[i],
                    ),
                output@ == framed(payloads),
                self.stream_content(id, output@) == Ok::<Seq<u8>, HubErrorView>(
                    whole.take(start as int),
                ),
            decreases len - start,
        {
            proof {
                pieces::lemma_next_piece(whole, size, start as nat, payloads.len());
            }
            let end = if len - start < ENCRYPT_STREAM_CHUNK_SIZE {
                len
            } else {
                start + ENCRYPT_STREAM_CHUNK_SIZE
            };
            let chunk = bytes::part(plaintext, start, end);
            let encrypted = match self.encrypt_for_client(app_instance_id, chunk) {
                Ok(encrypted) => encrypted,
                Err(error) => return Err(error),
            };
            let ghost before = output@;
            bytes::push_be32(&mut output, encrypted.len() as u32);
            bytes::extend(&mut output, encrypted.as_slice());
            proof {
                let frame = bytes::be32_bytes(encrypted@.len() as u32) + encrypted@;
                assert(output@ =~= before + frame);
                self.lemma_one_frame(id, encrypted@, chunk@);
                self.lemma_stream_append(id, before, frame);
                assert(whole.take(start as int) + chunk@ =~= whole.take(end as int));
                let longer = payloads.push(encrypted@);
                assert(longer.drop_last() =~= payloads);
                payloads = longer;
            }
            start = end;
        }
        proof {
            assert(whole.skip(start as int) =~= Seq::empty());
            assert(parts.skip(payloads.len() as int).len() == 0);
            assert(whole.take(start as int) =~= whole);
            assert(self.are_sealed_pieces(id, payloads, whole));
        }
        Ok(output)
    }

    /// Decrypts a stream of a client's.
    pub fn decrypt_stream_from_client(&self, app_instance_id: &str, ciphertext: &[u8]) -> (plaintext:
        Result<Vec<u8>, HubError>)
        ensures
            secure::bytes_or(plaintext) == self.stream_content(app_instance_id@, ciphertext@),
    {
        let ghost id = app_instance_id@;
        let ghost whole = ciphertext@;
        let mut output: Vec<u8> = Vec::new();
        let mut offset: usize = 0;
        let len = ciphertext.len();
        proof {
            assert(whole.skip(0) =~= whole);
            if let Ok(rest) = self.stream_content(id, whole) {
                assert(output@ + rest =~= rest);
            }
        }
        while offset < len
            invariant
                offset <= len,
                len == whole.len(),
                whole == ciphertext@,
                id == app_instance_id@,
                self.stream_content(id, whole) == after_part(
                    output@,
                    self.stream_content(id, whole.skip(offset as int)),
                ),
            decreases len - offset,
        {
            let ghost rest = whole.skip(offset as int);
            if len - offset < 4 {
                return Err(HubError::TruncatedLength);
            }
            let size = bytes::be32_at(ciphertext, offset) as usize;
            assert(rest.take(4) =~= whole.subrange(offset as int, offset + 4));
            offset += 4;
            if size > len - offset {
                return Err(HubError::TruncatedChunk);
            }
            let chunk = bytes::part(ciphertext, offset, offset + size);
            assert(chunk@ =~= rest.subrange(4, 4 + size as int));
            let part = match self.decrypt_from_client(app_instance_id, chunk) {
                Ok(part) => part,
                Err(error) => return Err(error),
            };
            let ghost before = output@;
            bytes::extend(&mut output, part.as_slice());
            offset += size;
            proof {
                assert(rest.skip(4 + size as int) =~= whole.skip(offset as int));
                if let Ok(end) = self.stream_content(id, whole.skip(offset as int)) {
                    assert(before + (part@ + end) =~= output@ + end);
                }
            }
        }
        proof {
            assert(whole.skip(offset as int) =~= Seq::empty());
            assert(output@ + Seq::empty() =~= output@);
        }
        Ok(output)
    }
}

/// The name of the file that holds the icon of a source.
pub open spec fn icon_file(source: Seq<char>) -> Result<Seq<char>, HubErrorView> {
    let name = text::utf8(source);
    if name.len() == 0 || name.len() > MAX_ICON_SOURCE {
        Err(HubErrorView::InvalidIconSource)
    } else {
        Ok(text::hex_text(codec::sha256_of(name)))
    }
}

/// The name of the file that holds the icon of a source.
pub fn icon_path(source: &str) -> (name: Result<String, HubError>)
    ensures
        secure::text_or(name) == icon_file(source@),
{
    let name = source.as_bytes();
    if name.len() == 0 || name.len() > MAX_ICON_SOURCE {
        return Err(HubError::InvalidIconSource);
    }
    let digest = codec::sha256(name);
    Ok(text::hex(digest.as_slice()))
}

/// Pairing a client that was not known and removing it again leaves the hub as it was.
pub proof fn law_pair_then_remove(hub: HubView, id: Seq<char>, paired_at_ms: i64, key: Seq<u8>)
    requires
        !hub.clients.contains_key(id),
        !hub.client_crypt_keys.contains_key(id),
        !hub.client_sync_infos.contains_key(id),
    ensures
        hub.with_client(id, paired_at_ms, key).without_client(id) == hub,
{
    let after = hub.with_client(id, paired_at_ms, key).without_client(id);
    assert(after.clients =~= hub.clients);
    assert(after.client_crypt_keys =~= hub.client_crypt_keys);
    assert(after.client_sync_infos =~= hub.client_sync_infos);
}

/// A removed client is known in no way: it is not paired, and neither its key nor what it told about
/// itself is held.
pub proof fn law_removed_client_is_gone(hub: HubView, id: Seq<char>)
    ensures
        !hub.without_client(id).clients.contains_key(id),
        !hub.without_client(id).client_crypt_keys.contains_key(id),
        !hub.without_client(id).client_sync_infos.contains_key(id),
{
}

/// A key exchange is confirmed once at most: the second confirmation finds none.
pub proof fn law_confirmed_once(
    exchanges: Map<Seq<char>, PendingKeyExchangeView>,
    id: Seq<char>,
    request: TrustConfirmRequest,
    now_ms: i64,
)
    ensures
        confirmation(exchanges.remove(id), id, request, now_ms) == Err::<Seq<u8>, HubErrorView>(
            HubErrorView::KeyExchangeNotFound,
        ),
{
}

/// A key exchange that is taken in can be confirmed as long as its time is not up, by whoever signs
/// the confirmation with the key of the exchange, and by nobody else. The client is then paired under
/// the key that it gave in the exchange, the exchange is gone, and no confirmation of it is taken in
/// again. A refused confirmation leaves the hub as it was. Where the server has a signature for its
/// answer, the confirmation that is taken in is answered, with the record of the client.
pub proof fn law_exchange_then_confirm(
    hub: HubView,
    keys: ServerKeys,
    id: Seq<char>,
    exchange: KeyExchangeRequest,
    exchanged_ms: i64,
    request: TrustConfirmRequest,
    now_ms: i64,
    after: HubView,
    outcome: Result<(TrustConfirmResponse, StoredClient), HubError>,
    again: TrustConfirmRequest,
    again_ms: i64,
)
    requires
        key_exchange(exchange) is Ok,
        exchanged_ms <= i64::MAX - PAIRING_TOKEN_TTL_MS,
        now_ms <= exchanged_ms + PAIRING_TOKEN_TTL_MS,
        is_confirmation(
            hub.with_exchange(
                id,
                exchange,
                secure::public_document(keys.crypt_secret())->0,
                key_exchange(exchange)->Ok_0,
                exchanged_ms,
            ),
            keys,
            id,
            request,
            now_ms,
            after,
            outcome,
        ),
    ensures
        ({
            let key = key_exchange(exchange)->Ok_0;
            let own = secure::public_document(keys.crypt_secret())->0;
            let signed = secure::verification(
                exchange.sign_public_key@,
                request.signature@,
                secure::time_data(request.timestamp),
            ) == Ok::<bool, SecureErrorView>(true);
            &&& signed ==> {
                &&& after.clients.contains_key(id)
                &&& after.client_crypt_keys.contains_key(id)
                &&& after.client_crypt_keys[id] == key
                &&& !after.pending_key_exchanges.contains_key(id)
                &&& confirmation(after.pending_key_exchanges, id, again, again_ms) is Err
                &&& secure::signature_text(keys.sign_secret(), secure::time_data(now_ms)) is Some
                    ==> (outcome matches Ok((response, record)) && record@ == new_client(
                    id,
                    now_ms,
                    key,
                ))
            }
            &&& !signed ==> {
                &&& outcome is Err
                &&& after == hub.with_exchange(id, exchange, own, key, exchanged_ms)
            }
        }),
{
}

/// A token pairs nobody once its time is up, and nobody who does not show it.
pub proof fn law_token_is_needed(
    hub: HubView,
    value: u32,
    client_id: Option<Seq<char>>,
    issued_ms: i64,
    request: TrustRequest,
    now_ms: i64,
)
    requires
        issued_ms <= i64::MAX - PAIRING_TOKEN_TTL_MS,
        now_ms > issued_ms + PAIRING_TOKEN_TTL_MS || request.pairing_request.token != value,
    ensures
        token_pairing(
            hub.with_token(value, client_id, issued_ms).pairing_token,
            request,
            now_ms,
        ) is Err,
{
}

/// A piece that has come is no longer missing, and no other piece is affected.
pub proof fn law_chunk_noted(received: Seq<bool>, index: usize)
    requires
        received.len() <= usize::MAX,
        index < received.len(),
    ensures
        forall|i: usize| #[trigger]
            missing(received.update(index as int, true)).contains(i) <==> missing(
                received,
            ).contains(i) && i != index,
{
    law_missing(received);
    law_missing(received.update(index as int, true));
}

/// The pieces of a file cover it, and none is superfluous: a file of some size has at least one.
pub proof fn law_chunk_count(size: u64)
    requires
        size <= 1_048_576 * usize::MAX,
    ensures
        chunk_count_of(size) * 1_048_576 >= size,
        size > 0 ==> (chunk_count_of(size) - 1) * 1_048_576 < size,
        size == 0 ==> chunk_count_of(size) == 0,
{
}

/// A paired client may send a file whose entry gives a size above zero, and nobody else may; it is
/// told as many pieces as it takes to hold the size.
pub proof fn law_push_check(hub: HubView, id: Seq<char>, paste: PasteView)
    ensures
        push_check(hub, id, paste) is Ok <==> {
            &&& hub.clients.contains_key(id)
            &&& paste.unsigned("size"@) matches Some(size)
            &&& size > 0
        },
        push_check(hub, id, paste) matches Ok(count) ==> {
            let size = paste.unsigned("size"@)->0;
            size <= 1_048_576 * usize::MAX ==> {
                &&& count >= 1
                &&& count * 1_048_576 >= size
                &&& (count - 1) * 1_048_576 < size
            }
        },
        !hub.clients.contains_key(id) ==> push_check(hub, id, paste) == Err::<usize, HubErrorView>(
            HubErrorView::UnpairedClient,
        ),
{
    if let Some(size) = paste.unsigned("size"@) {
        if size <= 1_048_576 * usize::MAX {
            law_chunk_count(size);
        }
    }
}

/// Pieces of a file are taken in from the client that sends it, under the token that it was given,
/// and up to the number of pieces that it was told.
pub proof fn law_push_session(
    hub: HubView,
    id: Seq<char>,
    paste_id: i64,
    index: usize,
    token: Seq<char>,
)
    ensures
        session_check(hub, id, paste_id, token) is Ok <==> {
            &&& hub.push_sessions.contains_key(paste_id)
            &&& hub.push_sessions[paste_id].from_app_instance_id == id
            &&& hub.push_sessions[paste_id].token == token
        },
        chunk_check(hub, id, paste_id, index, token) is Ok <==> {
            &&& hub.push_sessions.contains_key(paste_id)
            &&& hub.push_sessions[paste_id].from_app_instance_id == id
            &&& hub.push_sessions[paste_id].token == token
            &&& index < hub.push_sessions[paste_id].chunk_count
        },
        !hub.push_sessions.contains_key(paste_id) ==> chunk_check(
            hub,
            id,
            paste_id,
            index,
            token,
        ) == Err::<(), HubErrorView>(HubErrorView::PushSessionNotFound),
{
}

/// A file that a client may send is expected under the time as its number: each piece that begins
/// within the file's size is taken in from that client under that token and is missing until it
/// comes. Nothing else changes.
pub proof fn law_push_opened(
    before: HubView,
    after: HubView,
    id: Seq<char>,
    paste: PasteView,
    token: Seq<char>,
    now_ms: i64,
    response: Result<PushPrepareResponse, HubError>,
    index: usize,
    other: i64,
)
    requires
        push_opened(before, after, id, paste, token, now_ms, response),
    ensures
        response is Ok <==> {
            &&& before.clients.contains_key(id)
            &&& paste.unsigned("size"@) matches Some(size)
            &&& size > 0
        },
        response is Err ==> after == before,
        response matches Ok(answer) ==> {
            let size = paste.unsigned("size"@)->0;
            &&& answer.paste_id == now_ms
            &&& answer.session_token@ == token
            &&& answer.chunk_size == 1_048_576
            &&& after.push_sessions.contains_key(now_ms)
            &&& after.push_sessions[now_ms].paste == paste
            &&& after.push_sessions[now_ms].paste_id == now_ms
            &&& missing(after.push_sessions[now_ms].received).len() == answer.chunk_count
            &&& chunk_check(after, id, now_ms, index, token) is Ok <==> index < answer.chunk_count
            &&& size <= 1_048_576 * usize::MAX ==> (chunk_check(
                after,
                id,
                now_ms,
                index,
                token,
            ) is Ok <==> index * 1_048_576 < size)
        },
        other != now_ms ==> (after.push_sessions.contains_key(other)
            <==> before.push_sessions.contains_key(other)),
        other != now_ms && before.push_sessions.contains_key(other) ==> after.push_sessions[other]
            == before.push_sessions[other],
        after == (HubView { push_sessions: after.push_sessions, ..before }),
{
    if let Ok(answer) = response {
        let received = after.push_sessions[now_ms].received;
        lemma_all_missing(received);
        let size = paste.unsigned("size"@)->0;
        if size <= 1_048_576 * usize::MAX {
            law_chunk_count(size);
        }
    }
}

proof fn lemma_all_missing(received: Seq<bool>)
    requires
        forall|i: int| 0 <= i < received.len() ==> !received[i],
    ensures
        missing(received).len() == received.len(),
    decreases received.len(),
{
    if received.len() > 0 {
        lemma_all_missing(received.drop_last());
    }
}

/// A piece that is noted as come is noted in its own file alone, and no other piece is noted.
pub proof fn law_with_chunk(hub: HubView, paste_id: i64, index: usize, other: i64, place: int)
    requires
        hub.wf(),
        hub.push_sessions.contains_key(paste_id),
        index < hub.push_sessions[paste_id].chunk_count,
        0 <= place < hub.push_sessions[paste_id].chunk_count,
    ensures
        hub.with_chunk(paste_id, index).wf(),
        ({
            let before = hub.push_sessions[paste_id];
            let after = hub.with_chunk(paste_id, index).push_sessions[paste_id];
            &&& after.received.len() == before.received.len()
            &&& after.received[place] <==> (before.received[place] || place == index)
            &&& after == (PushSessionView { received: after.received, ..before })
        }),
        hub.with_chunk(paste_id, index).push_sessions.dom() == hub.push_sessions.dom(),
        other != paste_id && hub.push_sessions.contains_key(other) ==> hub.with_chunk(
            paste_id,
            index,
        ).push_sessions[other] == hub.push_sessions[other],
        hub.with_chunk(paste_id, index) == (HubView {
            push_sessions: hub.with_chunk(paste_id, index).push_sessions,
            ..hub
        }),
{
    assert(hub.with_chunk(paste_id, index).push_sessions.dom() =~= hub.push_sessions.dom());
}

/// The hub that is read back has a client that was kept with the time and the key that were kept of
/// it last, and no client that was not kept.
pub proof fn law_loaded_client(clients: Seq<LoadedClient>, id: Seq<char>, place: int)
    requires
        -1 <= place < clients.len(),
        place >= 0 ==> clients[place].client@.app_instance_id == id,
        forall|i: int|
            place < i < clients.len() ==> (#[trigger] clients[i]).client@.app_instance_id != id,
    ensures
        loaded(clients).clients.contains_key(id) <==> place >= 0,
        loaded(clients).client_crypt_keys.contains_key(id) <==> place >= 0,
        place >= 0 ==> {
            &&& loaded(clients).clients[id].app_instance_id == id
            &&& loaded(clients).clients[id].paired_at_ms == clients[place].client@.paired_at_ms
            &&& loaded(clients).client_crypt_keys[id] == clients[place].client@.crypt_public_key
        },
        loaded(clients).pairing_token.value == 0,
        loaded(clients).pending_key_exchanges.dom().is_empty(),
        loaded(clients).pastes.dom().is_empty(),
        loaded(clients).push_sessions.dom().is_empty(),
        loaded(clients).stored_files.dom().is_empty(),
    decreases clients.len(),
{
    if clients.len() > 0 {
        let rest = clients.drop_last();
        let last = clients.len() - 1;
        if place == last {
            lemma_loaded_nothing_else(rest);
        } else {
            assert(clients[last].client@.app_instance_id != id);
            assert forall|i: int| place < i < rest.len() implies (
            #[trigger] rest[i]).client@.app_instance_id != id by {
                assert(clients[i].client@.app_instance_id != id);
            }
            law_loaded_client(rest, id, place);
        }
    }
}

proof fn lemma_loaded_nothing_else(clients: Seq<LoadedClient>)
    ensures
        loaded(clients).pairing_token.value == 0,
        loaded(clients).pending_key_exchanges.dom().is_empty(),
        loaded(clients).pastes.dom().is_empty(),
        loaded(clients).push_sessions.dom().is_empty(),
        loaded(clients).stored_files.dom().is_empty(),
    decreases clients.len(),
{
    if clients.len() > 0 {
        lemma_loaded_nothing_else(clients.drop_last());
    }
}

/// The hub that is read back knows of a client what it told about itself last, if it was kept.
pub proof fn law_loaded_info(clients: Seq<LoadedClient>, id: Seq<char>, place: int)
    requires
        -1 <= place < clients.len(),
        place >= 0 ==> clients[place].client@.app_instance_id == id && clients[place].sync_info
            is Some,
        forall|i: int|
            place < i < clients.len() ==> (#[trigger] clients[i]).client@.app_instance_id != id
                || clients[i].sync_info is None,
    ensures
        loaded(clients).client_sync_infos.contains_key(id) <==> place >= 0,
        place >= 0 ==> loaded(clients).client_sync_infos[id] == clients[place].sync_info->0@,
    decreases clients.len(),
{
    if clients.len() > 0 {
        let rest = clients.drop_last();
        let last = clients.len() - 1;
        if place < last {
            assert(clients[last].client@.app_instance_id != id || clients[last].sync_info is None);
            assert forall|i: int| place < i < rest.len() implies (
            #[trigger] rest[i]).client@.app_instance_id != id || rest[i].sync_info is None by {
                assert(clients[i].client@.app_instance_id != id || clients[i].sync_info is None);
            }
            law_loaded_info(rest, id, place);
        }
    }
}

/// A key exchange is shown as long as its time is not up, once for each client, with the code in six
/// digits that spells it; nothing else is shown.
pub proof fn law_exchange_challenges(
    order: Seq<Seq<char>>,
    exchanges: Map<Seq<char>, PendingKeyExchangeView>,
    now_ms: i64,
    shown: PairingChallengeView,
)
    ensures
        exchange_challenges(order, exchanges, now_ms).contains(shown) <==> {
            &&& order.contains(shown.client_id)
            &&& now_ms <= exchanges[shown.client_id].expires_at_ms
            &&& shown.expires_at_ms == exchanges[shown.client_id].expires_at_ms
            &&& shown.code == text::six_digits(exchanges[shown.client_id].sas as nat)
            &&& shown.kind == "sas-v2"@
        },
        order.no_duplicates() ==> forall|i: int, j: int|
            0 <= i < j < exchange_challenges(order, exchanges, now_ms).len()
                ==> exchange_challenges(order, exchanges, now_ms)[i].client_id
                != exchange_challenges(order, exchanges, now_ms)[j].client_id,
        forall|i: int|
            0 <= i < exchange_challenges(order, exchanges, now_ms).len() ==> order.contains(
                (#[trigger] exchange_challenges(order, exchanges, now_ms)[i]).client_id,
            ),
    decreases order.len(),
{
    let all = exchange_challenges(order, exchanges, now_ms);
    if order.len() > 0 {
        let rest = order.drop_last();
        let last = order.last();
        let earlier = exchange_challenges(rest, exchanges, now_ms);
        law_exchange_challenges(rest, exchanges, now_ms, shown);
        assert(order[order.len() - 1] == last);
        assert forall|id: Seq<char>| #[trigger] order.contains(id) <==> rest.contains(id) || id
            == last by {
            if rest.contains(id) {
                let i = choose|i: int| 0 <= i < rest.len() && rest[i] == id;
                assert(order[i] == id);
            }
            if order.contains(id) && id != last {
                let i = choose|i: int| 0 <= i < order.len() && order[i] == id;
                assert(rest[i] == id);
            }
        }
        if earlier.contains(shown) {
            let i = choose|i: int| 0 <= i < earlier.len() && earlier[i] == shown;
            assert(all[i] == shown);
        }
        if all.len() > earlier.len() {
            assert(all[earlier.len() as int].client_id == last);
        }
        if all.contains(shown) {
            let i = choose|i: int| 0 <= i < all.len() && all[i] == shown;
            if i < earlier.len() {
                assert(earlier[i] == shown);
            }
        }
        if exchanges[last].expires_at_ms >= now_ms && shown.client_id == last && shown.expires_at_ms
            == exchanges[last].expires_at_ms && shown.code == text::six_digits(
            exchanges[last].sas as nat,
        ) && shown.kind == "sas-v2"@ {
            assert(all[earlier.len() as int] == shown);
        }
        assert forall|i: int| 0 <= i < all.len() implies order.contains(
            (#[trigger] all[i]).client_id,
        ) by {
            if i < earlier.len() {
                assert(rest.contains(earlier[i].client_id));
            }
        }
        if order.no_duplicates() {
            assert(!rest.contains(last)) by {
                if rest.contains(last) {
                    let i = choose|i: int| 0 <= i < rest.len() && rest[i] == last;
                    assert(order[i] == order[order.len() - 1]);
                }
            }
            assert forall|i: int, j: int| 0 <= i < j < all.len() implies all[i].client_id
                != all[j].client_id by {
                assert(rest.contains(earlier[i].client_id));
            }
        }
    }
}

/// The pairing token is shown as long as there is one and its time is not up, with its value in six
/// digits and for whom it is.
pub proof fn law_token_challenge(token: PairingTokenView, now_ms: i64)
    ensures
        token_challenge(token, now_ms).len() == (if token.value != 0 && now_ms
            <= token.expires_at_ms {
            1nat
        } else {
            0nat
        }),
        token_challenge(token, now_ms).len() == 1 ==> {
            let shown = token_challenge(token, now_ms)[0];
            &&& shown.code == text::six_digits(token.value as nat)
            &&& shown.expires_at_ms == token.expires_at_ms
            &&& shown.kind == "token-v1"@
            &&& token.client_id matches Some(id) ==> shown.client_id == id
            &&& token.client_id is None ==> shown.client_id == "扫码配对"@
        },
{
}

/// A token stands for half a minute, and setting it changes nothing else.
pub proof fn law_with_token(hub: HubView, value: u32, client_id: Option<Seq<char>>, now_ms: i64)
    requires
        now_ms <= i64::MAX - 30_000,
    ensures
        hub.with_token(value, client_id, now_ms).pairing_token.value == value,
        hub.with_token(value, client_id, now_ms).pairing_token.client_id == client_id,
        hub.with_token(value, client_id, now_ms).pairing_token.expires_at_ms == now_ms + 30_000,
        hub.with_token(value, client_id, now_ms) == (HubView {
            pairing_token: hub.with_token(value, client_id, now_ms).pairing_token,
            ..hub
        }),
{
}

/// A client pairs by token exactly where it signed its request with the key that it names, there is
/// a token whose time is not up, the request shows it, and the client's key can be read: that key is
/// then the one that it is paired under.
pub proof fn law_token_pairing(token: PairingTokenView, request: TrustRequest, now_ms: i64)
    ensures
        token_pairing(token, request, now_ms) is Ok <==> {
            &&& secure::verification(
                request.pairing_request.sign_public_key@,
                request.signature@,
                secure::pairing_request_data(request.pairing_request),
            ) == Ok::<bool, SecureErrorView>(true)
            &&& token.value != 0
            &&& now_ms <= token.expires_at_ms
            &&& request.pairing_request.token == token.value
            &&& codec::base64_decoded(request.pairing_request.crypt_public_key@) is Ok
        },
        token_pairing(token, request, now_ms) matches Ok(key) ==> codec::base64_decoded(
            request.pairing_request.crypt_public_key@,
        ) == Ok::<Seq<u8>, Seq<char>>(key),
{
}

/// A key exchange is taken in exactly where the client signed it with the key that it names and its
/// other key can be read.
pub proof fn law_key_exchange(request: KeyExchangeRequest)
    ensures
        key_exchange(request) is Ok <==> {
            &&& secure::verification(
                request.sign_public_key@,
                request.signature@,
                secure::keys_data(
                    request.sign_public_key@,
                    request.crypt_public_key@,
                    request.timestamp,
                ),
            ) == Ok::<bool, SecureErrorView>(true)
            &&& codec::base64_decoded(request.crypt_public_key@) is Ok
        },
        key_exchange(request) matches Ok(key) ==> codec::base64_decoded(request.crypt_public_key@)
            == Ok::<Seq<u8>, Seq<char>>(key),
{
}

/// An open key exchange stands for half a minute with the client's keys and the code that both sides
/// work out; other clients' exchanges stay as they are, and nothing else changes.
pub proof fn law_with_exchange(
    hub: HubView,
    id: Seq<char>,
    request: KeyExchangeRequest,
    own: Seq<u8>,
    key: Seq<u8>,
    now_ms: i64,
    other: Seq<char>,
)
    requires
        now_ms <= i64::MAX - 30_000,
    ensures
        ({
            let after = hub.with_exchange(id, request, own, key, now_ms);
            let exchange = after.pending_key_exchanges[id];
            &&& after.pending_key_exchanges.contains_key(id)
            &&& exchange.sign_public_key == request.sign_public_key@
            &&& exchange.crypt_public_key == key
            &&& exchange.sas == secure::sas_of(own, key)
            &&& exchange.sas == secure::sas_of(key, own)
            &&& exchange.expires_at_ms == now_ms + 30_000
            &&& other != id ==> (after.pending_key_exchanges.contains_key(other)
                <==> hub.pending_key_exchanges.contains_key(other))
            &&& other != id && hub.pending_key_exchanges.contains_key(other)
                ==> after.pending_key_exchanges[other] == hub.pending_key_exchanges[other]
            &&& after == (HubView { pending_key_exchanges: after.pending_key_exchanges, ..hub })
        }),
{
    secure::law_sas_agrees(own, key);
}

/// A client that is paired is known under its id with the time and its key; other clients stay as
/// they are. Its key exchange, if it was confirmed, is gone, and no other is.
pub proof fn law_paired(
    hub: HubView,
    id: Seq<char>,
    key: Seq<u8>,
    now_ms: i64,
    other: Seq<char>,
)
    ensures
        ({
            let after = hub.with_client(id, now_ms, key);
            &&& after.clients.contains_key(id)
            &&& after.clients[id].app_instance_id == id
            &&& after.clients[id].paired_at_ms == now_ms
            &&& after.client_crypt_keys.contains_key(id)
            &&& after.client_crypt_keys[id] == key
            &&& other != id ==> {
                &&& after.clients.contains_key(other) <==> hub.clients.contains_key(other)
                &&& hub.clients.contains_key(other) ==> after.clients[other] == hub.clients[other]
                &&& after.client_crypt_keys.contains_key(other)
                    <==> hub.client_crypt_keys.contains_key(other)
                &&& hub.client_crypt_keys.contains_key(other) ==> after.client_crypt_keys[other]
                    == hub.client_crypt_keys[other]
            }
            &&& after == (HubView {
                clients: after.clients,
                client_crypt_keys: after.client_crypt_keys,
                ..hub
            })
        }),
        ({
            let confirmed = hub.with_confirmed(id, key, now_ms);
            let paired = hub.with_client(id, now_ms, key);
            &&& !confirmed.pending_key_exchanges.contains_key(id)
            &&& other != id ==> (confirmed.pending_key_exchanges.contains_key(other)
                <==> hub.pending_key_exchanges.contains_key(other))
            &&& other != id && hub.pending_key_exchanges.contains_key(other)
                ==> confirmed.pending_key_exchanges[other] == hub.pending_key_exchanges[other]
            &&& confirmed == (HubView {
                pending_key_exchanges: confirmed.pending_key_exchanges,
                ..paired
            })
        }),
        new_client(id, now_ms, key).app_instance_id == id,
        new_client(id, now_ms, key).paired_at_ms == now_ms,
        new_client(id, now_ms, key).crypt_public_key == key,
        new_client(id, now_ms, key).sync_info_json is None,
        new_client(id, now_ms, key).last_seen_ms is None,
{
}

/// Forgetting a client touches no other client and nothing else.
pub proof fn law_removal_touches_no_other(hub: HubView, id: Seq<char>, other: Seq<char>)
    requires
        other != id,
    ensures
        ({
            let after = hub.without_client(id);
            &&& after.clients.contains_key(other) <==> hub.clients.contains_key(other)
            &&& hub.clients.contains_key(other) ==> after.clients[other] == hub.clients[other]
            &&& after.client_crypt_keys.contains_key(other)
                <==> hub.client_crypt_keys.contains_key(other)
            &&& hub.client_crypt_keys.contains_key(other) ==> after.client_crypt_keys[other]
                == hub.client_crypt_keys[other]
            &&& after.client_sync_infos.contains_key(other)
                <==> hub.client_sync_infos.contains_key(other)
            &&& hub.client_sync_infos.contains_key(other) ==> after.client_sync_infos[other]
                == hub.client_sync_infos[other]
            &&& after == (HubView {
                clients: after.clients,
                client_crypt_keys: after.client_crypt_keys,
                client_sync_infos: after.client_sync_infos,
                ..hub
            })
        }),
{
}

/// Two entries are remembered under one name only where they come from one client under one number.
pub proof fn law_paste_key(source: Seq<char>, paste_id: i64, other: Seq<char>, other_id: i64)
    ensures
        paste_key(source, paste_id) == paste_key(other, other_id) ==> source == other && paste_id
            == other_id,
{
    if paste_key(source, paste_id) == paste_key(other, other_id) {
        reveal_strlit(":");
        let whole = paste_key(source, paste_id);
        let number = text::decimal(paste_id as int);
        let other_number = text::decimal(other_id as int);
        text::law_decimal(paste_id as int);
        text::law_decimal(other_id as int);
        lemma_no_colon(paste_id);
        lemma_no_colon(other_id);
        let a = source.len() as int;
        let b = other.len() as int;
        assert(whole[a] == ':');
        assert(whole[b] == ':');
        assert(forall|i: int| a < i < whole.len() ==> whole[i] == number[i - a - 1]);
        assert(forall|i: int| b < i < whole.len() ==> whole[i] == other_number[i - b - 1]);
        if a < b {
            assert(whole[b] == number[b - a - 1]);
        }
        if b < a {
            assert(whole[a] == other_number[a - b - 1]);
        }
        assert(source =~= whole.take(a));
        assert(other =~= whole.take(a));
        assert(number =~= whole.skip(a + 1));
        assert(other_number =~= whole.skip(a + 1));
        assert(text::decimal(other_id as int) == text::decimal(paste_id as int));
    }
}

proof fn lemma_no_colon(number: i64)
    ensures
        forall|i: int|
            0 <= i < text::decimal(number as int).len() ==> #[trigger] text::decimal(
                number as int,
            )[i] != ':',
{
    text::law_decimal(number as int);
    text::law_decimal(-(number as int));
    let whole = text::decimal(number as int);
    assert forall|i: int| 0 <= i < whole.len() implies #[trigger] whole[i] != ':' by {
        if number >= 0 {
            assert(text::is_digit(whole[i]));
        } else if i > 0 {
            let digits = text::decimal(-(number as int));
            assert(whole.skip(1)[i - 1] == whole[i]);
            assert(text::is_digit(digits[i - 1]));
        }
    }
}

/// Different pieces of a file are kept in different files, each named by the place of the piece.
pub proof fn law_chunk_file(index: usize, other: usize)
    ensures
        chunk_file(index).len() == text::decimal(index as int).len() + 6,
        chunk_file(index).take(text::decimal(index as int).len() as int) == text::decimal(
            index as int,
        ),
        chunk_file(index).skip(text::decimal(index as int).len() as int) == ".chunk"@,
        chunk_file(index) == chunk_file(other) ==> index == other,
{
    reveal_strlit(".chunk");
    let number = text::decimal(index as int);
    let other_number = text::decimal(other as int);
    assert(chunk_file(index).take(number.len() as int) =~= number);
    assert(chunk_file(index).skip(number.len() as int) =~= ".chunk"@);
    if chunk_file(index) == chunk_file(other) {
        assert(number.len() == other_number.len());
        assert(chunk_file(other).take(number.len() as int) =~= other_number);
        text::law_decimal(index as int);
        assert(text::decimal(other as int) == text::decimal(index as int));
    }
}

/// An icon is kept under the digest of its source's name, where the name has 1 to 1024 bytes.
pub proof fn law_icon_file(source: Seq<char>)
    ensures
        icon_file(source) is Ok <==> 1 <= text::utf8(source).len() <= 1024,
        icon_file(source) matches Ok(name) ==> name == text::hex_text(
            codec::sha256_of(text::utf8(source)),
        ),
{
}

impl Hub {
    /// A payload of a client's is opened under the key that the server shares with the client whose
    /// key it holds, and under no other; without the client's key it is not opened.
    pub proof fn law_opened_from(&self, id: Seq<char>, payload: Seq<u8>, plaintext: Seq<u8>)
        ensures
            !self@.client_crypt_keys.contains_key(id) ==> self.opened_from(id, payload) == Err::<
                Seq<u8>,
                HubErrorView,
            >(HubErrorView::MissingCryptKey),
            self@.client_crypt_keys.contains_key(id) ==> (self.opened_from(id, payload) == Ok::<
                Seq<u8>,
                HubErrorView,
            >(plaintext) <==> secure::opened(
                secure::shared_key_of(
                    self.server_keys().crypt_secret(),
                    self@.client_crypt_keys[id],
                ),
                payload,
            ) == Ok::<Seq<u8>, SecureErrorView>(plaintext)),
    {
    }

    /// What is sealed for a client is opened to the plaintext by the server and by whoever holds the
    /// secret number behind the client's key.
    pub proof fn law_sealed_for(
        &self,
        id: Seq<char>,
        payload: Seq<u8>,
        plaintext: Seq<u8>,
        client: Seq<u8>,
    )
        requires
            self.is_sealed_for(id, payload, plaintext),
        ensures
            self@.client_crypt_keys.contains_key(id),
            self.opened_from(id, payload) == Ok::<Seq<u8>, HubErrorView>(plaintext),
            client.len() == 32 && secure::public_document(client) == Some(
                self@.client_crypt_keys[id],
            ) ==> secure::opened(
                secure::shared_key_of(
                    client,
                    secure::public_document(self.server_keys().crypt_secret())->0,
                ),
                payload,
            ) == Ok::<Seq<u8>, SecureErrorView>(plaintext),
    {
    }

    /// A stream for a client holds as many payloads as there are pieces of 256 KiB in the plaintext,
    /// each sealed for the client, and decrypts to the plaintext.
    pub proof fn law_stream_for(&self, id: Seq<char>, stream: Seq<u8>, plaintext: Seq<u8>)
        requires
            self.is_stream_for(id, stream, plaintext),
        ensures
            self.stream_content(id, stream) == Ok::<Seq<u8>, HubErrorView>(plaintext),
            exists|payloads: Seq<Seq<u8>>|
                {
                    &&& stream == #[trigger] framed(payloads)
                    &&& payloads.len() * 262_144 >= plaintext.len()
                    &&& plaintext.len() > 0 ==> (payloads.len() - 1) * 262_144 < plaintext.len()
                    &&& forall|i: int|
                        0 <= i < payloads.len() ==> self.is_sealed_for(
                            id,
                            #[trigger] payloads[i],
                            plaintext.subrange(
                                i * 262_144,
                                if (i + 1) * 262_144 < plaintext.len() {
                                    (i + 1) * 262_144
                                } else {
                                    plaintext.len() as int
                                },
                            ),
                        )
                },
    {
        let size = ENCRYPT_STREAM_CHUNK_SIZE as nat;
        let parts = pieces::pieces(plaintext, size);
        let payloads = choose|payloads: Seq<Seq<u8>>|
            self.are_sealed_pieces(id, payloads, plaintext) && stream == #[trigger] framed(payloads);
        pieces::law_pieces_join(plaintext, size);
        pieces::law_piece_places(plaintext, size);
        assert forall|i: int| 0 <= i < payloads.len() implies (#[trigger] payloads[i]).len()
            <= u32::MAX && self.opened_from(id, payloads[i]) == Ok::<Seq<u8>, HubErrorView>(
            parts[i],
        ) by {
            assert(self.is_sealed_for(id, payloads[i], parts[i]));
        }
        self.law_framed_stream(id, payloads, parts);
        assert forall|i: int| 0 <= i < payloads.len() implies self.is_sealed_for(
            id,
            #[trigger] payloads[i],
            plaintext.subrange(
                i * 262_144,
                if (i + 1) * 262_144 < plaintext.len() {
                    (i + 1) * 262_144
                } else {
                    plaintext.len() as int
                },
            ),
        ) by {
            assert(self.is_sealed_for(id, payloads[i], parts[i]));
        }
    }

    /// A stream that ends within a length or within a payload is refused.
    pub proof fn law_truncated_stream(&self, id: Seq<char>, stream: Seq<u8>)
        ensures
            0 < stream.len() < 4 ==> self.stream_content(id, stream) == Err::<
                Seq<u8>,
                HubErrorView,
            >(HubErrorView::TruncatedLength),
            stream.len() >= 4 && ((stream[0] * 256 + stream[1]) * 256 + stream[2]) * 256 + stream[3]
                > stream.len() - 4 ==> self.stream_content(id, stream) == Err::<
                Seq<u8>,
                HubErrorView,
            >(HubErrorView::TruncatedChunk),
            stream.len() == 0 ==> self.stream_content(id, stream) == Ok::<Seq<u8>, HubErrorView>(
                Seq::empty(),
            ),
    {
    }
}

/// The server's answer to a pairing by token names the server's two keys and the time, and its
/// signature over them holds under the key that it names.
pub proof fn law_trust_response(keys: ServerKeys, now_ms: i64, response: TrustResponse)
    requires
        is_trust_response(keys, now_ms, response),
    ensures
        ({
            let body = response.pairing_response;
            &&& secure::public_key_text(keys.sign_secret()) == Some(body.sign_public_key@)
            &&& secure::public_key_text(keys.crypt_secret()) == Some(body.crypt_public_key@)
            &&& body.timestamp == now_ms
            &&& secure::verification(
                body.sign_public_key@,
                response.signature@,
                secure::keys_data(body.sign_public_key@, body.crypt_public_key@, now_ms),
            ) == Ok::<bool, SecureErrorView>(true)
        }),
{
}

/// The server fails to answer only where it has no signature under its two keys and the time.
pub proof fn law_cannot_answer(keys: ServerKeys, now_ms: i64, error: HubErrorView)
    ensures
        cannot_answer(keys, answer_data(keys, now_ms), error) ==> {
            let sign = secure::public_key_text(keys.sign_secret())->0;
            let crypt = secure::public_key_text(keys.crypt_secret())->0;
            &&& error == HubErrorView::Secure(SecureErrorView::Signing)
            &&& secure::signature_text(
                keys.sign_secret(),
                secure::keys_data(sign, crypt, now_ms),
            ) is None
        },
{
}

/// A file that came whole is the one that was announced: its entry, its number, its client and its
/// pieces, in the directory that is named by the number.
pub proof fn law_completed_file(session: PushSessionView, completed: CompletedPush)
    requires
        is_completed(session, completed),
    ensures
        completed.paste@ == session.paste,
        completed.paste_id == session.paste_id,
        completed.from_app_instance_id@ == session.from_app_instance_id,
        completed.chunk_count == session.chunk_count,
        completed.directory@ == text::decimal(session.paste_id as int),
{
}

impl Hub {
    /// Nothing can be sealed for a client exactly where the server holds no key of the client's, or
    /// one that cannot be read.
    pub proof fn law_cannot_seal(&self, id: Seq<char>, error: HubErrorView)
        ensures
            self.cannot_seal(id, error) ==> {
                ||| !self@.client_crypt_keys.contains_key(id) && error
                    == HubErrorView::MissingCryptKey
                ||| self@.client_crypt_keys.contains_key(id) && (secure::shared_key_of(
                    self.server_keys().crypt_secret(),
                    self@.client_crypt_keys[id],
                ) matches Err(reason) && error == HubErrorView::Secure(reason))
            },
    {
    }
}

/// A refusal with numbers in it names them in decimal, and one about a key or a payload has the
/// words of what went wrong.
pub proof fn law_hub_words(expected: usize, got: usize, status: u16, error: SecureErrorView)
    ensures
        ({
            let words = (HubErrorView::ChunkCountMismatch { expected, got }).words();
            let first = text::decimal(expected as int);
            let end = 38 + first.len() as int;
            &&& words.take(38) == "target chunk count mismatch: expected "@
            &&& words.subrange(38, end) == first
            &&& words.subrange(end, end + 6) == ", got "@
            &&& words.skip(end + 6) == text::decimal(got as int)
        }),
        (HubErrorView::PushRejected { status }).words().take(28) == "file push prepare rejected: "@,
        (HubErrorView::PushRejected { status }).words().skip(28) == text::decimal(status as int),
        (HubErrorView::ChunkRejectedByTarget { index: got }).words().take(22)
            == "target rejected chunk "@,
        (HubErrorView::ChunkRejectedByTarget { index: got }).words().skip(22) == text::decimal(
            got as int,
        ),
        (HubErrorView::ChunkRejectedBySource { index: got }).words().take(27)
            == "source rejected file chunk "@,
        (HubErrorView::ChunkRejectedBySource { index: got }).words().skip(27) == text::decimal(
            got as int,
        ),
        HubErrorView::Secure(error).words() == error.words(),
{
    reveal_strlit("target chunk count mismatch: expected ");
    reveal_strlit(", got ");
    reveal_strlit("file push prepare rejected: ");
    reveal_strlit("target rejected chunk ");
    reveal_strlit("source rejected file chunk ");
    let words = (HubErrorView::ChunkCountMismatch { expected, got }).words();
    let end = 38 + text::decimal(expected as int).len() as int;
    assert(words.take(38) =~= "target chunk count mismatch: expected "@);
    assert(words.subrange(38, end) =~= text::decimal(expected as int));
    assert(words.subrange(end, end + 6) =~= ", got "@);
    assert(words.skip(end + 6) =~= text::decimal(got as int));
    let rejected = (HubErrorView::PushRejected { status }).words();
    assert(rejected.take(28) =~= "file push prepare rejected: "@);
    assert(rejected.skip(28) =~= text::decimal(status as int));
    let target = (HubErrorView::ChunkRejectedByTarget { index: got }).words();
    assert(target.take(22) =~= "target rejected chunk "@);
    assert(target.skip(22) =~= text::decimal(got as int));
    let source = (HubErrorView::ChunkRejectedBySource { index: got }).words();
    assert(source.take(27) =~= "source rejected file chunk "@);
    assert(source.skip(27) =~= text::decimal(got as int));
}

/// Of two challenges the one that lasts longer is listed first.
pub proof fn law_challenge_order(a: PairingChallengeView, b: PairingChallengeView)
    ensures
        a.expires_at_ms > b.expires_at_ms ==> <PairingChallenge as Ordered>::le(a, b)
            && !<PairingChallenge as Ordered>::le(b, a),
        a.expires_at_ms == b.expires_at_ms ==> <PairingChallenge as Ordered>::le(a, b)
            && <PairingChallenge as Ordered>::le(b, a),
{
}

} // verus!
