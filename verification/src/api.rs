//! The client-session state and the operations that compose the other
//! layers: name resolution to call-index bytes, schema-checked storage
//! addresses, extra/additional assembly, and decoding of raw read responses.
//! Everything here is pure computation; the transport and the signer stay
//! with the caller, who hands in raw bytes and takes plain values back.
use crate::address;
use crate::address::{double_map_address_of, map_address_of, plain_address_of};
use crate::codec::{dec, decode_value, model, Shape, Value};
use crate::error::Error;
use crate::extra::{AdditionalSigned, GenericExtra};
use crate::metadata::{
    find_constant, find_function, find_module, find_storage, Metadata, StorageLayout,
};
use vstd::prelude::*;
use vstd::string::StringSliceAdditionalSpecFns;

verus! {

/// The account-state record the remote node keeps per account, as far as the
/// envelope builder needs it.
#[derive(Debug, Clone, Copy, PartialEq, Eq, Structural)]
pub struct AccountInfo {
    /// The number of transactions the account has already sent.
    pub nonce: u32,
}

/// The next nonce to use for a signer: the stored count, or zero for an
/// account that has never transacted.
pub open spec fn nonce_of(info: Option<AccountInfo>) -> u32 {
    match info {
        Some(i) => i.nonce,
        None => 0,
    }
}

/// A client session: the schema and the chain constants fixed at connection
/// time.
#[derive(Debug)]
pub struct Api {
    pub metadata: Metadata,
    /// The 32-byte genesis block hash.
    pub genesis_hash: Vec<u8>,
    pub spec_version: u32,
    pub transaction_version: u32,
}

/// A well-formed session: the genesis hash is 32 bytes.
pub open spec fn api_wf(api: Api) -> bool {
    api.genesis_hash@.len() == 32
}

/// The module and function index a (module, function) name pair resolves to,
/// if both names exist.
pub open spec fn resolve_call_spec(m: Metadata, module: Seq<char>, function: Seq<char>) -> Option<
    (u8, u8),
> {
    match find_module(m.modules@, module) {
        Some(i) => match find_function(m.modules@[i].functions@, function) {
            Some(j) => Some((m.modules@[i].index, m.modules@[i].functions@[j].index)),
            None => None,
        },
        None => None,
    }
}

/// The layout a (module, item) name pair resolves to, if both names exist.
pub open spec fn resolve_storage_spec(m: Metadata, module: Seq<char>, item: Seq<char>) -> Option<
    StorageLayout,
> {
    match find_module(m.modules@, module) {
        Some(i) => match find_storage(m.modules@[i].storage@, item) {
            Some(j) => Some(m.modules@[i].storage@[j].layout),
            None => None,
        },
        None => None,
    }
}

impl Api {
    /// A session over a loaded schema.
    pub fn new(
        metadata: Metadata,
        genesis_hash: Vec<u8>,
        spec_version: u32,
        transaction_version: u32,
    ) -> (r: Api)
        requires
            genesis_hash@.len() == 32,
        ensures
            r == (Api { metadata, genesis_hash, spec_version, transaction_version }),
            api_wf(r),
    {
        Api { metadata, genesis_hash, spec_version, transaction_version }
    }

    /// The loaded schema.
    pub fn metadata(&self) -> (r: &Metadata)
        ensures
            r == &self.metadata,
    {
        &self.metadata
    }

    /// The raw encoded value of a module constant; fails with
    /// `UnknownModule` when no module has that name, with `UnknownConstant`
    /// when the module declares no constant of that name.
    pub fn fetch_constant_opaque_value(&self, module: &str, constant_name: &str) -> (r: Result<
        Vec<u8>,
        Error,
    >)
        ensures
            match r {
                Ok(v) => find_module(self.metadata.modules@, module@) matches Some(i)
                    && find_constant(
                    self.metadata.modules@[i].constants@,
                    constant_name@,
                ) matches Some(j) && v@ == self.metadata.modules@[i].constants@[j].value@,
                Err(e) => match find_module(self.metadata.modules@, module@) {
                    Some(i) => find_constant(
                        self.metadata.modules@[i].constants@,
                        constant_name@,
                    ) is None && e == Error::UnknownConstant,
                    None => e == Error::UnknownModule,
                },
            },
    {
        let pallet = self.metadata.pallet(module)?;
        let entry = pallet.constant(constant_name)?;
        let out = crate::scan::copy_bytes(&entry.value);
        Ok(out)
    }

    /// The two call-prefix bytes a (module, function) name pair resolves to:
    /// the module's index, then the function's index within it.  Fails with
    /// `UnknownModule` or `UnknownFunction` exactly when a name is absent.
    pub fn pallet_call_index(&self, module: &str, call_name: &str) -> (r: Result<[u8; 2], Error>)
        ensures
            match r {
                Ok(ix) => resolve_call_spec(self.metadata, module@, call_name@) == Some(
                    (ix[0], ix[1]),
                ),
                Err(e) => resolve_call_spec(self.metadata, module@, call_name@) is None && (match
                    find_module(self.metadata.modules@, module@) {
                    Some(_) => e == Error::UnknownFunction,
                    None => e == Error::UnknownModule,
                }),
            },
    {
        let pallet = self.metadata.pallet(module)?;
        let fn_index = pallet.function_index(call_name)?;
        Ok([pallet.index, fn_index])
    }

    /// An encoded call: the two resolved prefix bytes, then the encoded
    /// arguments verbatim.
    pub fn compose_call(&self, module: &str, call_name: &str, args: &Vec<u8>) -> (r: Result<
        Vec<u8>,
        Error,
    >)
        ensures
            match r {
                Ok(c) => resolve_call_spec(self.metadata, module@, call_name@) matches Some(ix)
                    && c@ == seq![ix.0, ix.1] + args@,
                Err(e) => resolve_call_spec(self.metadata, module@, call_name@) is None && (match
                    find_module(self.metadata.modules@, module@) {
                    Some(_) => e == Error::UnknownFunction,
                    None => e == Error::UnknownModule,
                }),
            },
    {
        let ix = self.pallet_call_index(module, call_name)?;
        let mut out: Vec<u8> = Vec::new();
        out.push(ix[0]);
        out.push(ix[1]);
        address::push_all(&mut out, args);
        assert(out@ =~= seq![ix[0], ix[1]] + args@);
        Ok(out)
    }

    /// The address of a plain storage item; fails with `ShapeMismatch` when
    /// the item is declared as a map, besides the resolution errors.
    pub fn storage_plain_address(&self, module: &str, item: &str) -> (r: Result<Vec<u8>, Error>)
        ensures
            match r {
                Ok(a) => resolve_storage_spec(self.metadata, module@, item@) == Some(
                    StorageLayout::Plain,
                ) && a@ == plain_address_of(module.spec_bytes(), item.spec_bytes()),
                Err(e) => match resolve_storage_spec(self.metadata, module@, item@) {
                    Some(layout) => layout !is Plain && e == Error::ShapeMismatch,
                    None => match find_module(self.metadata.modules@, module@) {
                        Some(i) => find_storage(self.metadata.modules@[i].storage@, item@) is None
                            && e == Error::UnknownStorageItem,
                        None => e == Error::UnknownModule,
                    },
                },
            },
    {
        let pallet = self.metadata.pallet(module)?;
        let entry = pallet.storage_entry(item)?;
        match entry.layout {
            StorageLayout::Plain => Ok(address::plain_address(module, item)),
            _ => Err(Error::ShapeMismatch),
        }
    }

    /// The address of one entry of a single-keyed storage map, the encoded
    /// key hashed per the item's declared hasher; fails with `ShapeMismatch`
    /// when the item is declared plain or double-keyed, never returning a
    /// plausible-looking address for the wrong accessor.
    pub fn storage_map_address(&self, module: &str, item: &str, key: &Vec<u8>) -> (r: Result<
        Vec<u8>,
        Error,
    >)
        ensures
            match r {
                Ok(a) => resolve_storage_spec(self.metadata, module@, item@) matches Some(
                    StorageLayout::SingleMap { hasher },
                ) && a@ == map_address_of(module.spec_bytes(), item.spec_bytes(), hasher, key@),
                Err(e) => match resolve_storage_spec(self.metadata, module@, item@) {
                    Some(layout) => layout !is SingleMap && e == Error::ShapeMismatch,
                    None => match find_module(self.metadata.modules@, module@) {
                        Some(i) => find_storage(self.metadata.modules@[i].storage@, item@) is None
                            && e == Error::UnknownStorageItem,
                        None => e == Error::UnknownModule,
                    },
                },
            },
    {
        let pallet = self.metadata.pallet(module)?;
        let entry = pallet.storage_entry(item)?;
        match entry.layout {
            StorageLayout::SingleMap { hasher } => Ok(
                address::map_address(module, item, &hasher, key),
            ),
            _ => Err(Error::ShapeMismatch),
        }
    }

    /// The 32-byte prefix every entry of a keyed storage item's address
    /// starts with, for prefix scans; fails with `ShapeMismatch` on a plain
    /// item, which has nothing to scan.
    pub fn storage_map_prefix(&self, module: &str, item: &str) -> (r: Result<Vec<u8>, Error>)
        ensures
            match r {
                Ok(a) => resolve_storage_spec(self.metadata, module@, item@) matches Some(layout)
                    && layout !is Plain && a@ == plain_address_of(
                    module.spec_bytes(),
                    item.spec_bytes(),
                ),
                Err(e) => match resolve_storage_spec(self.metadata, module@, item@) {
                    Some(layout) => layout is Plain && e == Error::ShapeMismatch,
                    None => match find_module(self.metadata.modules@, module@) {
                        Some(i) => find_storage(self.metadata.modules@[i].storage@, item@) is None
                            && e == Error::UnknownStorageItem,
                        None => e == Error::UnknownModule,
                    },
                },
            },
    {
        let pallet = self.metadata.pallet(module)?;
        let entry = pallet.storage_entry(item)?;
        match entry.layout {
            StorageLayout::Plain => Err(Error::ShapeMismatch),
            _ => Ok(address::plain_address(module, item)),
        }
    }

    /// The address of one entry of a double-keyed storage map; fails with
    /// `ShapeMismatch` when the item is declared otherwise.
    pub fn storage_double_map_address(
        &self,
        module: &str,
        item: &str,
        key1: &Vec<u8>,
        key2: &Vec<u8>,
    ) -> (r: Result<Vec<u8>, Error>)
        ensures
            match r {
                Ok(a) => resolve_storage_spec(self.metadata, module@, item@) matches Some(
                    StorageLayout::DoubleMap { hasher1, hasher2 },
                ) && a@ == double_map_address_of(
                    module.spec_bytes(),
                    item.spec_bytes(),
                    hasher1,
                    key1@,
                    hasher2,
                    key2@,
                ),
                Err(e) => match resolve_storage_spec(self.metadata, module@, item@) {
                    Some(layout) => layout !is DoubleMap && e == Error::ShapeMismatch,
                    None => match find_module(self.metadata.modules@, module@) {
                        Some(i) => find_storage(self.metadata.modules@[i].storage@, item@) is None
                            && e == Error::UnknownStorageItem,
                        None => e == Error::UnknownModule,
                    },
                },
            },
    {
        let pallet = self.metadata.pallet(module)?;
        let entry = pallet.storage_entry(item)?;
        match entry.layout {
            StorageLayout::DoubleMap { hasher1, hasher2 } => Ok(
                address::double_map_address(module, item, &hasher1, key1, &hasher2, key2),
            ),
            _ => Err(Error::ShapeMismatch),
        }
    }

    /// The additional-signed tuple of this session: its protocol versions,
    /// its genesis hash, and the given mortality checkpoint hash.
    pub fn additional_signed(&self, checkpoint_hash: Vec<u8>) -> (r: AdditionalSigned)
        requires
            api_wf(*self),
            checkpoint_hash@.len() == 32,
        ensures
            r.spec_version == self.spec_version,
            r.transaction_version == self.transaction_version,
            r.genesis_hash@ == self.genesis_hash@,
            r.checkpoint_hash == checkpoint_hash,
            crate::extra::additional_wf(r),
    {
        let genesis = crate::scan::copy_bytes(&self.genesis_hash);
        AdditionalSigned {
            spec_version: self.spec_version,
            transaction_version: self.transaction_version,
            genesis_hash: genesis,
            checkpoint_hash,
        }
    }

    /// The signing payload for a call under this session's versions, with an
    /// explicit mortality checkpoint hash: the hash of the block the era's
    /// validity window is anchored to.
    pub fn signing_payload_at(
        &self,
        call: &Vec<u8>,
        extra: &GenericExtra,
        checkpoint_hash: &Vec<u8>,
    ) -> (r: Vec<u8>)
        requires
            api_wf(*self),
            crate::extra::extra_wf(*extra),
            checkpoint_hash@.len() == 32,
        ensures
            ({
                let additional = AdditionalSigned {
                    spec_version: self.spec_version,
                    transaction_version: self.transaction_version,
                    genesis_hash: self.genesis_hash,
                    checkpoint_hash: *checkpoint_hash,
                };
                r@ == crate::extrinsic::signing_payload_enc(call@, *extra, additional)
            }),
    {
        let checkpoint = crate::scan::copy_bytes(checkpoint_hash);
        let additional = self.additional_signed(checkpoint);
        let r = crate::extrinsic::signing_payload(call, extra, &additional);
        proof {
            let stated = AdditionalSigned {
                spec_version: self.spec_version,
                transaction_version: self.transaction_version,
                genesis_hash: self.genesis_hash,
                checkpoint_hash: *checkpoint_hash,
            };
            assert(crate::extra::additional_enc(additional) =~= crate::extra::additional_enc(
                stated,
            ));
            assert(r@ =~= crate::extrinsic::signing_payload_enc(call@, *extra, stated));
        }
        r
    }

    /// The signing payload for a call under this session's versions, with
    /// the genesis hash as the mortality checkpoint (the immortal case).
    pub fn signing_payload(&self, call: &Vec<u8>, extra: &GenericExtra) -> (r: Vec<u8>)
        requires
            api_wf(*self),
            crate::extra::extra_wf(*extra),
        ensures
            ({
                let additional = AdditionalSigned {
                    spec_version: self.spec_version,
                    transaction_version: self.transaction_version,
                    genesis_hash: self.genesis_hash,
                    checkpoint_hash: self.genesis_hash,
                };
                r@ == crate::extrinsic::signing_payload_enc(call@, *extra, additional)
            }),
    {
        self.signing_payload_at(call, extra, &self.genesis_hash)
    }
}

/// The next nonce for a signer from its account-info read: the stored count,
/// or zero for an account the remote node has never seen.
pub fn nonce_from_account_info(info: &Option<AccountInfo>) -> (r: u32)
    ensures
        r == nonce_of(*info),
{
    match info {
        Some(i) => i.nonce,
        None => 0,
    }
}

/// Decode a raw storage read: no value at the address is `None` (absence is
/// not an error); a present value decodes under the expected shape or fails
/// with `CodecError`.
pub fn decode_read_response(raw: &Option<Vec<u8>>, shape: &Shape) -> (r: Result<
    Option<Value>,
    Error,
>)
    ensures
        match r {
            Ok(o) => match o {
                Some(v) => raw matches Some(b) && dec(b@, *shape) matches Some(p) && p.0 == model(
                    v,
                ),
                None => raw is None,
            },
            Err(e) => raw matches Some(b) && dec(b@, *shape) is None && e == Error::CodecError,
        },
{
    match raw {
        None => Ok(None),
        Some(bytes) => {
            proof {
                assert(bytes@.skip(0) =~= bytes@);
            }
            match decode_value(bytes, 0, shape) {
                Ok((v, _end)) => Ok(Some(v)),
                Err(e) => Err(e),
            }
        },
    }
}

} // verus!
