//! Deterministic subaccount derivation: (environment, nonce) pairs map
//! bijectively onto 32-byte subaccounts, which select a derivation path and a
//! signing-key configuration.

use vstd::prelude::*;
use vstd::string::StringExecFns;

use crate::encoding::{dec_seq, u64_to_dec};

verus! {

/// Deployment tier selecting a signing key and a subaccount namespace.
#[derive(Clone, Copy, PartialEq, Eq, Structural, Debug)]
pub enum Environment {
    Production,
    Staging,
    Development,
}

impl Environment {
    /// The tag byte that marks a subaccount as belonging to this environment.
    pub open spec fn spec_tag(self) -> u8 {
        match self {
            Environment::Production => 0,
            Environment::Staging => 16,
            Environment::Development => 8,
        }
    }

    pub fn tag(self) -> (r: u8)
        ensures
            r == self.spec_tag(),
    {
        match self {
            Environment::Production => 0,
            Environment::Staging => 16,
            Environment::Development => 8,
        }
    }
}

/// The environment denoted by a tag byte. Tags that mark no other
/// environment fall back to production, so the mapping is total.
pub open spec fn environment_of_tag(tag: u8) -> Environment {
    if tag == 16 {
        Environment::Staging
    } else if tag == 8 {
        Environment::Development
    } else {
        Environment::Production
    }
}

/// Byte `k` (most significant first) of the nonce's big-endian rendering.
pub open spec fn nonce_byte(nonce: u64, k: int) -> u8
    recommends
        0 <= k < 8,
{
    ((nonce >> ((56 - 8 * k) as u64)) & 0xff) as u8
}

/// The canonical 32 bytes derived from an environment and a nonce: the
/// environment tag, then 23 zero bytes, then the nonce big-endian.
pub open spec fn derived_seq(environment: Environment, nonce: u64) -> Seq<u8> {
    Seq::new(
        32,
        |i: int|
            if i == 0 {
                environment.spec_tag()
            } else if i < 24 {
                0u8
            } else {
                nonce_byte(nonce, i - 24)
            },
    )
}

/// The nonce encoded big-endian in the last eight bytes of a subaccount.
pub open spec fn nonce_of_seq(s: Seq<u8>) -> u64
    recommends
        s.len() == 32,
{
    ((s[24] as u64) << 56u64) | ((s[25] as u64) << 48u64) | ((s[26] as u64) << 40u64) | ((
    s[27] as u64) << 32u64) | ((s[28] as u64) << 24u64) | ((s[29] as u64) << 16u64) | ((
    s[30] as u64) << 8u64) | (s[31] as u64)
}

/// A 32-byte derivation index identifying one signing identity.
#[derive(Clone, PartialEq, Eq, Debug)]
pub struct Subaccount(pub Vec<u8>);

impl Subaccount {
    /// A subaccount is well formed when it holds exactly 32 bytes.
    pub open spec fn wf(&self) -> bool {
        self.0@.len() == 32
    }

    /// Derives the subaccount for an environment and a nonce. Pure and
    /// total: equal inputs yield byte-identical output.
    pub fn new(environment: Environment, nonce: u64) -> (r: Subaccount)
        ensures
            r.wf(),
            r.0@ == derived_seq(environment, nonce),
    {
        let mut v: Vec<u8> = Vec::new();
        v.push(environment.tag());
        let mut i: usize = 1;
        while i < 24
            invariant
                1 <= i <= 24,
                v@.len() == i,
                v@[0] == environment.spec_tag(),
                forall|j: int| 1 <= j < i ==> v@[j] == 0u8,
            decreases 24 - i,
        {
            v.push(0);
            i = i + 1;
        }
        assert((nonce >> 56u64) & 0xff < 256 && (nonce >> 48u64) & 0xff < 256 && (nonce >> 40u64)
            & 0xff < 256 && (nonce >> 32u64) & 0xff < 256 && (nonce >> 24u64) & 0xff < 256 && (nonce
            >> 16u64) & 0xff < 256 && (nonce >> 8u64) & 0xff < 256 && (nonce >> 0u64) & 0xff < 256)
            by (bit_vector);
        v.push(((nonce >> 56u64) & 0xff) as u8);
        v.push(((nonce >> 48u64) & 0xff) as u8);
        v.push(((nonce >> 40u64) & 0xff) as u8);
        v.push(((nonce >> 32u64) & 0xff) as u8);
        v.push(((nonce >> 24u64) & 0xff) as u8);
        v.push(((nonce >> 16u64) & 0xff) as u8);
        v.push(((nonce >> 8u64) & 0xff) as u8);
        v.push(((nonce >> 0u64) & 0xff) as u8);
        proof {
            assert(v@[24] == nonce_byte(nonce, 0));
            assert(v@[25] == nonce_byte(nonce, 1));
            assert(v@[26] == nonce_byte(nonce, 2));
            assert(v@[27] == nonce_byte(nonce, 3));
            assert(v@[28] == nonce_byte(nonce, 4));
            assert(v@[29] == nonce_byte(nonce, 5));
            assert(v@[30] == nonce_byte(nonce, 6));
            assert(v@[31] == nonce_byte(nonce, 7));
            assert(v@ =~= derived_seq(environment, nonce));
        }
        Subaccount(v)
    }

    /// The environment a subaccount's tag byte denotes.
    pub open spec fn spec_environment(&self) -> Environment {
        environment_of_tag(self.0@[0])
    }

    pub fn environment(&self) -> (r: Environment)
        requires
            self.wf(),
        ensures
            r == self.spec_environment(),
    {
        match self.0[0] {
            16 => Environment::Staging,
            8 => Environment::Development,
            _ => Environment::Production,
        }
    }

    /// The nonce encoded in a subaccount's trailing eight bytes.
    pub open spec fn spec_nonce(&self) -> u64 {
        nonce_of_seq(self.0@)
    }

    pub fn nonce(&self) -> (r: u64)
        requires
            self.wf(),
        ensures
            r == self.spec_nonce(),
    {
        ((self.0[24] as u64) << 56u64) | ((self.0[25] as u64) << 48u64) | ((self.0[26] as u64)
            << 40u64) | ((self.0[27] as u64) << 32u64) | ((self.0[28] as u64) << 24u64) | ((
        self.0[29] as u64) << 16u64) | ((self.0[30] as u64) << 8u64) | (self.0[31] as u64)
    }

    /// The human identifier: `default` for the production subaccount with
    /// nonce zero, otherwise an environment prefix and the nonce in decimal.
    pub open spec fn spec_id(&self) -> Seq<char> {
        if self.spec_environment() == Environment::Production && self.spec_nonce() == 0 {
            "default"@
        } else {
            (match self.spec_environment() {
                Environment::Production => "account_"@,
                Environment::Staging => "staging_account_"@,
                Environment::Development => "development_account_"@,
            }) + dec_seq(self.spec_nonce() as nat)
        }
    }

    pub fn id(&self) -> (r: String)
        requires
            self.wf(),
        ensures
            r@ == self.spec_id(),
    {
        let environment = self.environment();
        let nonce = self.nonce();
        if environment == Environment::Production && nonce == 0 {
            let r = "default".to_owned();
            r
        } else {
            let mut r = match environment {
                Environment::Production => "account_".to_owned(),
                Environment::Staging => "staging_account_".to_owned(),
                Environment::Development => "development_account_".to_owned(),
            };
            let digits = u64_to_dec(nonce);
            r.append(digits.as_str());
            r
        }
    }

    /// The display name: `Default` for the production subaccount with nonce
    /// zero, otherwise an environment prefix and the successor of the nonce.
    pub open spec fn spec_name(&self) -> Seq<char> {
        if self.spec_environment() == Environment::Production && self.spec_nonce() == 0 {
            "Default"@
        } else {
            (match self.spec_environment() {
                Environment::Production => "Account "@,
                Environment::Staging => "Staging Account "@,
                Environment::Development => "Development Account "@,
            }) + dec_seq((self.spec_nonce() + 1) as nat)
        }
    }

    pub fn name(&self) -> (r: String)
        requires
            self.wf(),
            self.spec_nonce() < u64::MAX,
        ensures
            r@ == self.spec_name(),
    {
        let environment = self.environment();
        let nonce = self.nonce();
        if environment == Environment::Production && nonce == 0 {
            let r = "Default".to_owned();
            r
        } else {
            let mut r = match environment {
                Environment::Production => "Account ".to_owned(),
                Environment::Staging => "Staging Account ".to_owned(),
                Environment::Development => "Development Account ".to_owned(),
            };
            let digits = u64_to_dec(nonce + 1);
            r.append(digits.as_str());
            r
        }
    }

    /// The derivation path handed to the external signer: a single element
    /// equal to the raw 32 bytes, collision-free by construction.
    pub fn derivation_path(&self) -> (r: Vec<Vec<u8>>)
        ensures
            r.deep_view() == seq![self.0@],
    {
        let mut r: Vec<Vec<u8>> = Vec::new();
        r.push(clone_bytes(&self.0));
        proof {
            assert(r@[0]@ == self.0@);
            assert(r@[0].deep_view() =~= self.0@);
            assert(r.deep_view() =~= seq![self.0@]);
        }
        r
    }

    /// The signing-key configuration selected by the environment.
    pub fn config(&self) -> (r: EcdsaConfig)
        requires
            self.wf(),
        ensures
            r == self.spec_environment().spec_config(),
    {
        EcdsaConfig::from_env(self.environment())
    }

    /// The signing-key identifier selected by the environment.
    pub fn key_id(&self) -> (r: EcdsaKeyId)
        requires
            self.wf(),
        ensures
            r.curve == EcdsaCurve::Secp256k1,
            r.name@ == self.spec_environment().spec_config().spec_key_name(),
    {
        self.config().key_id()
    }

    /// The key identifier, the signing fee budget, and the derivation path,
    /// as handed together to the external signer.
    pub fn key_id_with_cycles_and_path(&self) -> (r: (EcdsaKeyId, u64, Vec<Vec<u8>>))
        requires
            self.wf(),
        ensures
            r.0.curve == EcdsaCurve::Secp256k1,
            r.0.name@ == self.spec_environment().spec_config().spec_key_name(),
            r.1 == self.spec_environment().spec_config().spec_sign_cycles(),
            r.2.deep_view() == seq![self.0@],
    {
        let config = self.config();
        (config.key_id(), config.sign_cycles(), self.derivation_path())
    }
}

impl Default for Subaccount {
    /// The production subaccount with nonce zero: 32 zero bytes.
    fn default() -> (r: Subaccount)
        ensures
            r.wf(),
            r.0@ == derived_seq(Environment::Production, 0),
    {
        Subaccount::new(Environment::Production, 0)
    }
}

/// Copies a byte vector.
pub fn clone_bytes(v: &Vec<u8>) -> (r: Vec<u8>)
    ensures
        r@ == v@,
{
    let mut r: Vec<u8> = Vec::new();
    crate::encoding::push_all(&mut r, v);
    r
}

/// Round trip: deriving a subaccount from any environment and nonce and
/// reading the components back recovers the pair exactly.
pub proof fn lemma_derive_round_trip(environment: Environment, nonce: u64)
    ensures
        environment_of_tag(derived_seq(environment, nonce)[0]) == environment,
        nonce_of_seq(derived_seq(environment, nonce)) == nonce,
{
    let s = derived_seq(environment, nonce);
    assert(s[0] == environment.spec_tag());
    assert(((((nonce >> 56u64) & 0xff) as u8 as u64) << 56u64) | ((((nonce >> 48u64)
        & 0xff) as u8 as u64) << 48u64) | ((((nonce >> 40u64) & 0xff) as u8 as u64) << 40u64) | ((((
    nonce >> 32u64) & 0xff) as u8 as u64) << 32u64) | ((((nonce >> 24u64) & 0xff) as u8 as u64)
        << 24u64) | ((((nonce >> 16u64) & 0xff) as u8 as u64) << 16u64) | ((((nonce >> 8u64)
        & 0xff) as u8 as u64) << 8u64) | (((nonce >> 0u64) & 0xff) as u8 as u64) == nonce)
        by (bit_vector);
    assert(s[24] == ((nonce >> 56u64) & 0xff) as u8);
    assert(s[25] == ((nonce >> 48u64) & 0xff) as u8);
    assert(s[26] == ((nonce >> 40u64) & 0xff) as u8);
    assert(s[27] == ((nonce >> 32u64) & 0xff) as u8);
    assert(s[28] == ((nonce >> 24u64) & 0xff) as u8);
    assert(s[29] == ((nonce >> 16u64) & 0xff) as u8);
    assert(s[30] == ((nonce >> 8u64) & 0xff) as u8);
    assert(s[31] == ((nonce >> 0u64) & 0xff) as u8);
}

/// The curve of every key this vault derives from.
#[derive(Clone, Copy, PartialEq, Eq, Structural, Debug)]
pub enum EcdsaCurve {
    Secp256k1,
}

/// A named signing key on a curve, as the external signer identifies it.
#[derive(Clone, PartialEq, Eq, Debug)]
pub struct EcdsaKeyId {
    pub curve: EcdsaCurve,
    pub name: String,
}

/// The signing-key configuration for an environment: which named key signs
/// and what fee budget a signature costs.
#[derive(Clone, Copy, PartialEq, Eq, Structural, Debug)]
pub enum EcdsaConfig {
    Key1,
    TestKey1,
    LocalDevelopment,
}

impl Environment {
    /// The configuration each environment selects; staging and development
    /// use cheaper test keys.
    pub open spec fn spec_config(self) -> EcdsaConfig {
        match self {
            Environment::Production => EcdsaConfig::Key1,
            Environment::Staging => EcdsaConfig::TestKey1,
            Environment::Development => EcdsaConfig::LocalDevelopment,
        }
    }
}

impl EcdsaConfig {
    pub fn from_env(environment: Environment) -> (r: EcdsaConfig)
        ensures
            r == environment.spec_config(),
    {
        match environment {
            Environment::Production => EcdsaConfig::Key1,
            Environment::Staging => EcdsaConfig::TestKey1,
            Environment::Development => EcdsaConfig::LocalDevelopment,
        }
    }

    /// The name under which the external signer knows the key.
    pub open spec fn spec_key_name(self) -> Seq<char> {
        match self {
            EcdsaConfig::Key1 => "key_1"@,
            EcdsaConfig::TestKey1 => "test_key_1"@,
            EcdsaConfig::LocalDevelopment => "dfx_test_key"@,
        }
    }

    pub fn key_name(self) -> (r: String)
        ensures
            r@ == self.spec_key_name(),
    {
        match self {
            EcdsaConfig::Key1 => "key_1".to_owned(),
            EcdsaConfig::TestKey1 => "test_key_1".to_owned(),
            EcdsaConfig::LocalDevelopment => "dfx_test_key".to_owned(),
        }
    }

    /// The fee budget attached to one signing request.
    pub open spec fn spec_sign_cycles(self) -> u64 {
        match self {
            EcdsaConfig::Key1 => 26_153_846_153,
            EcdsaConfig::TestKey1 => 10_000_000_000,
            EcdsaConfig::LocalDevelopment => 0,
        }
    }

    pub fn sign_cycles(self) -> (r: u64)
        ensures
            r == self.spec_sign_cycles(),
    {
        match self {
            EcdsaConfig::Key1 => 26_153_846_153,
            EcdsaConfig::TestKey1 => 10_000_000_000,
            EcdsaConfig::LocalDevelopment => 0,
        }
    }

    /// The key identifier handed to the external signer.
    pub fn key_id(self) -> (r: EcdsaKeyId)
        ensures
            r.curve == EcdsaCurve::Secp256k1,
            r.name@ == self.spec_key_name(),
    {
        EcdsaKeyId { curve: EcdsaCurve::Secp256k1, name: self.key_name() }
    }
}

} // verus!
