//! Minted nominal identifiers and the name table that maps each identifier to
//! its current human name. A top-level declaration mints from its kind and
//! name at introduction; a member (field, variant, or generic binder) mints
//! from its kind, its owner's digest, and its local name, so renaming the
//! owner never moves a member's identifier.

use crate::engine::SchemaError;
use crate::name::Name;
use crate::seqs::{first_index, lemma_first_index_absent, lemma_first_index_found, lemma_first_index_step};
use vstd::prelude::*;
use vstd::utf8::encode_utf8;

verus! {

/// The declaration kind a nominal identifier addresses.
#[derive(Clone, Copy, Debug, PartialEq, Eq, Hash, PartialOrd, Ord, Structural)]
pub enum DeclarationKind {
    Type,
    Field,
    Variant,
    Generic,
}

/// The per-kind tag folded into a minted hash.
pub open spec fn kind_tag(kind: DeclarationKind) -> u8 {
    match kind {
        DeclarationKind::Type => 0,
        DeclarationKind::Field => 1,
        DeclarationKind::Variant => 2,
        DeclarationKind::Generic => 3,
    }
}

impl DeclarationKind {
    fn mint_tag(self) -> (r: u8)
        ensures
            r == kind_tag(self),
    {
        match self {
            DeclarationKind::Type => 0,
            DeclarationKind::Field => 1,
            DeclarationKind::Variant => 2,
            DeclarationKind::Generic => 3,
        }
    }
}

/// A minted 128-bit nominal identifier for one declaration, ordered by kind
/// and then by digest.
#[derive(Clone, Copy, Debug, PartialEq, Eq, Hash, PartialOrd, Ord)]
pub struct NominalIdentifier {
    kind: DeclarationKind,
    digest: [u8; 16],
}

/// The mathematical form of a nominal identifier.
pub struct IdModel {
    pub kind: DeclarationKind,
    pub digest: Seq<u8>,
}

impl View for NominalIdentifier {
    type V = IdModel;

    closed spec fn view(&self) -> IdModel {
        IdModel { kind: self.kind, digest: self.digest@ }
    }
}

/// What `blake3::derive_key` returns for a context string and key material.
pub uninterp spec fn blake3_derive_key(context: Seq<char>, key_material: Seq<u8>) -> Seq<u8>;

/// `blake3::derive_key`: the 32-byte key derived from `key_material` under the
/// context string `context`. The contract names the result and claims nothing
/// of its bytes.
#[verifier::external_body]
fn derive_key(context: &str, key_material: &[u8]) -> (r: [u8; 32])
    ensures
        r@ == blake3_derive_key(context@, key_material@),
{
    blake3::derive_key(context, key_material)
}

/// The context string that separates identifier minting from every other
/// hash domain.
pub open spec fn mint_context() -> Seq<char> {
    "schema 2026-07-10 provisional nominal identifier"@
}

/// The identifier a top-level declaration mints from its kind and name.
pub open spec fn top_level_id(kind: DeclarationKind, name: Seq<char>) -> IdModel {
    IdModel {
        kind,
        digest: blake3_derive_key(mint_context(), seq![kind_tag(kind)] + encode_utf8(name)).take(16),
    }
}

/// The identifier a member mints from its kind, its owner's digest, and its
/// local name.
pub open spec fn member_id(kind: DeclarationKind, owner: IdModel, local_name: Seq<char>) -> IdModel {
    IdModel {
        kind,
        digest: blake3_derive_key(
            mint_context(),
            seq![kind_tag(kind)] + owner.digest + encode_utf8(local_name),
        ).take(16),
    }
}

/// The big-endian value of a byte string.
pub open spec fn be_value(s: Seq<u8>) -> nat
    decreases s.len(),
{
    if s.len() == 0 {
        0
    } else {
        be_value(s.drop_last()) * 256 + s.last() as nat
    }
}

/// `256` raised to `n`.
pub open spec fn pow256(n: nat) -> nat
    decreases n,
{
    if n == 0 {
        1
    } else {
        256 * pow256((n - 1) as nat)
    }
}

/// A byte string's big-endian value stays below `256` to its length.
proof fn lemma_be_value_bound(s: Seq<u8>)
    ensures
        be_value(s) < pow256(s.len()),
    decreases s.len(),
{
    if s.len() > 0 {
        lemma_be_value_bound(s.drop_last());
        let v = be_value(s.drop_last());
        let p = pow256((s.len() - 1) as nat);
        let b = s.last();
        assert(v * 256 + b < p * 256) by (nonlinear_arith)
            requires
                v < p,
                b < 256,
        ;
    }
}

/// Whether identifier `a` orders strictly before identifier `b`: by kind, then
/// by digest.
pub open spec fn id_before(a: IdModel, b: IdModel) -> bool {
    kind_tag(a.kind) < kind_tag(b.kind) || (kind_tag(a.kind) == kind_tag(b.kind) && be_value(
        a.digest,
    ) < be_value(b.digest))
}

/// Whether a text is exactly 32 lowercase hexadecimal digits.
pub open spec fn hex_digest_ok(s: Seq<char>) -> bool {
    s.len() == 32 && forall|i: int|
        0 <= i < 32 ==> (#[trigger] crate::text::lower_hex_value(s[i])) is Some
}

/// The 16 bytes a text of 32 lowercase hexadecimal digits denotes, byte `i`
/// from characters `2i` and `2i + 1`.
pub open spec fn hex_digest_bytes(s: Seq<char>) -> Seq<u8> {
    Seq::new(16, |i: int| crate::identity::hex_pair_value(s[2 * i], s[2 * i + 1])->Some_0)
}

/// A text of 32 characters is a lowercase hexadecimal digest exactly when
/// each of its 16 two-character fields reads as a byte.
proof fn lemma_digest_ok_by_pairs(s: Seq<char>)
    requires
        s.len() == 32,
    ensures
        hex_digest_ok(s) <==> forall|i: int|
            0 <= i < 16 ==> (#[trigger] crate::identity::hex_pair_value(s[2 * i], s[2 * i + 1])) is Some,
{
    if forall|i: int|
        0 <= i < 16 ==> (#[trigger] crate::identity::hex_pair_value(s[2 * i], s[2 * i + 1])) is Some {
        assert forall|i: int| 0 <= i < 32 implies (#[trigger] crate::text::lower_hex_value(
            s[i],
        )) is Some by {
            let k = i / 2;
            assert(crate::identity::hex_pair_value(s[2 * k], s[2 * k + 1]) is Some);
        }
    }
    if hex_digest_ok(s) {
        assert forall|i: int| 0 <= i < 16 implies (#[trigger] crate::identity::hex_pair_value(
            s[2 * i],
            s[2 * i + 1],
        )) is Some by {
            assert(crate::text::lower_hex_value(s[2 * i]) is Some);
            assert(crate::text::lower_hex_value(s[2 * i + 1]) is Some);
        }
    }
}

impl NominalIdentifier {
    /// Read a 32-character lowercase hexadecimal digest back into its 16
    /// bytes; any other length or any other character yields `None`.
    pub fn digest_from_hex(hex: &str) -> (r: Option<[u8; 16]>)
        ensures
            r is Some <==> hex_digest_ok(hex@),
            r matches Some(d) ==> d@ == hex_digest_bytes(hex@),
    {
        let chars = crate::text::chars_of(hex);
        if chars.len() != 32 {
            return None;
        }
        let mut digest: [u8; 16] = [0u8; 16];
        let mut i: usize = 0;
        while i < 16
            invariant
                i <= 16,
                chars@ == hex@,
                chars@.len() == 32,
                digest@.len() == 16,
                forall|j: int|
                    0 <= j < i ==> (#[trigger] crate::identity::hex_pair_value(
                        chars@[2 * j],
                        chars@[2 * j + 1],
                    )) is Some,
                forall|j: int|
                    0 <= j < i ==> #[trigger] digest@[j] == crate::identity::hex_pair_value(
                        chars@[2 * j],
                        chars@[2 * j + 1],
                    )->Some_0,
            decreases 16 - i,
        {
            match crate::identity::hex_pair(chars[2 * i], chars[2 * i + 1]) {
                Some(v) => {
                    digest.set(i, v);
                },
                None => {
                    proof {
                        lemma_digest_ok_by_pairs(hex@);
                        assert(crate::identity::hex_pair_value(
                            hex@[2 * i as int],
                            hex@[2 * i as int + 1],
                        ) is None);
                    }
                    return None;
                },
            }
            i += 1;
        }
        proof {
            lemma_digest_ok_by_pairs(hex@);
        }
        assert(digest@ =~= hex_digest_bytes(hex@));
        Some(digest)
    }

    /// Assemble an identifier from a kind and a 32-byte hash, keeping the first
    /// 16 bytes.
    fn from_hash(kind: DeclarationKind, hash: [u8; 32]) -> (r: Self)
        ensures
            r@ == (IdModel { kind, digest: hash@.take(16) }),
    {
        let digest: [u8; 16] = [
            hash[0],
            hash[1],
            hash[2],
            hash[3],
            hash[4],
            hash[5],
            hash[6],
            hash[7],
            hash[8],
            hash[9],
            hash[10],
            hash[11],
            hash[12],
            hash[13],
            hash[14],
            hash[15],
        ];
        let r = NominalIdentifier { kind, digest };
        assert(r.digest@ =~= hash@.take(16));
        r
    }

    /// Mint the identifier of a top-level declaration from its kind and its
    /// fully qualified name at introduction.
    pub fn mint(kind: DeclarationKind, fully_qualified_name: &str) -> (r: Self)
        ensures
            r@ == top_level_id(kind, fully_qualified_name@),
    {
        let mut material: Vec<u8> = Vec::new();
        material.push(kind.mint_tag());
        let bytes = fully_qualified_name.as_bytes();
        let mut i: usize = 0;
        while i < bytes.len()
            invariant
                i <= bytes@.len(),
                material@ == seq![kind_tag(kind)] + bytes@.take(i as int),
            decreases bytes.len() - i,
        {
            material.push(bytes[i]);
            assert(material@ =~= seq![kind_tag(kind)] + bytes@.take(i + 1));
            i += 1;
        }
        assert(bytes@.take(bytes@.len() as int) =~= bytes@);
        let hash = derive_key("schema 2026-07-10 provisional nominal identifier", material.as_slice());
        Self::from_hash(kind, hash)
    }

    /// Mint the identifier of a member declaration from its kind, its owner's
    /// digest, and its local name.
    pub fn mint_member(kind: DeclarationKind, owner: &NominalIdentifier, local_name: &str) -> (r: Self)
        ensures
            r@ == member_id(kind, owner@, local_name@),
    {
        let mut material: Vec<u8> = Vec::new();
        material.push(kind.mint_tag());
        let mut k: usize = 0;
        while k < 16
            invariant
                k <= 16,
                owner.digest@.len() == 16,
                material@ == seq![kind_tag(kind)] + owner.digest@.take(k as int),
            decreases 16 - k,
        {
            material.push(owner.digest[k]);
            assert(material@ =~= seq![kind_tag(kind)] + owner.digest@.take(k + 1));
            k += 1;
        }
        assert(owner.digest@.take(16) =~= owner.digest@);
        let bytes = local_name.as_bytes();
        let ghost head = material@;
        let mut i: usize = 0;
        while i < bytes.len()
            invariant
                i <= bytes@.len(),
                material@ == head + bytes@.take(i as int),
            decreases bytes.len() - i,
        {
            material.push(bytes[i]);
            assert(material@ =~= head + bytes@.take(i + 1));
            i += 1;
        }
        assert(bytes@.take(bytes@.len() as int) =~= bytes@);
        let hash = derive_key("schema 2026-07-10 provisional nominal identifier", material.as_slice());
        Self::from_hash(kind, hash)
    }

    pub fn kind(&self) -> (r: DeclarationKind)
        ensures
            r == self@.kind,
    {
        self.kind
    }

    /// The 32-character lowercase hexadecimal rendering of the digest.
    pub fn to_hex(&self) -> (r: String)
        ensures
            r@ == crate::text::hex_seq(self@.digest),
    {
        crate::text::hex_text(&self.digest)
    }

    /// Identity of two identifiers, by kind and digest.
    pub fn same(&self, other: &Self) -> (r: bool)
        ensures
            r == (self@ == other@),
    {
        if self.kind != other.kind {
            return false;
        }
        let mut i: usize = 0;
        while i < 16
            invariant
                i <= 16,
                self.digest@.len() == 16,
                other.digest@.len() == 16,
                self.digest@.take(i as int) == other.digest@.take(i as int),
            decreases 16 - i,
        {
            if self.digest[i] != other.digest[i] {
                assert(self.digest@[i as int] != other.digest@[i as int]);
                return false;
            }
            assert(self.digest@.take(i + 1) =~= self.digest@.take(i as int).push(self.digest@[i as int]));
            assert(other.digest@.take(i + 1) =~= other.digest@.take(i as int).push(other.digest@[i as int]));
            i += 1;
        }
        assert(self.digest@ =~= self.digest@.take(16));
        assert(other.digest@ =~= other.digest@.take(16));
        true
    }

    /// The big-endian value of the digest.
    fn digest_value(&self) -> (r: u128)
        ensures
            r == be_value(self@.digest),
    {
        let mut acc: u128 = 0;
        let mut i: usize = 0;
        while i < 16
            invariant
                i <= 16,
                self.digest@.len() == 16,
                acc == be_value(self.digest@.take(i as int)),
            decreases 16 - i,
        {
            proof {
                assert(self.digest@.take(i + 1).drop_last() =~= self.digest@.take(i as int));
                lemma_be_value_bound(self.digest@.take(i + 1));
                reveal_with_fuel(pow256, 17);
                assert(pow256(16) == 0x1_0000_0000_0000_0000_0000_0000_0000_0000);
                lemma_pow256_monotone((i + 1) as nat, 16);
            }
            acc = acc * 256 + self.digest[i] as u128;
            i += 1;
        }
        assert(self.digest@.take(16) =~= self.digest@);
        acc
    }

    /// Whether this identifier orders strictly before `other`.
    fn before(&self, other: &Self) -> (r: bool)
        ensures
            r == id_before(self@, other@),
    {
        let a = self.kind.mint_tag();
        let b = other.kind.mint_tag();
        if a != b {
            return a < b;
        }
        self.digest_value() < other.digest_value()
    }
}

/// `256` to a power grows with the power.
proof fn lemma_pow256_monotone(a: nat, b: nat)
    requires
        a <= b,
    ensures
        pow256(a) <= pow256(b),
    decreases b - a,
{
    if a < b {
        lemma_pow256_monotone(a, (b - 1) as nat);
    }
}

/// Optional owner identity.
fn same_owner(a: Option<&NominalIdentifier>, b: Option<&NominalIdentifier>) -> (r: bool)
    ensures
        r == (owner_view(a) == owner_view(b)),
{
    match (a, b) {
        (Some(x), Some(y)) => x.same(y),
        (None, None) => true,
        _ => false,
    }
}

/// The view of an optional identifier.
pub open spec fn owner_view(o: Option<&NominalIdentifier>) -> Option<IdModel> {
    match o {
        Some(i) => Some(i@),
        None => None,
    }
}

/// The view of an owned optional identifier.
pub open spec fn owned_owner_view(o: Option<NominalIdentifier>) -> Option<IdModel> {
    match o {
        Some(i) => Some(i@),
        None => None,
    }
}

/// One row of a name table: an identifier, its owner when the declaration is
/// a member, and the current name (local for a member, full for a top-level
/// declaration).
#[derive(Debug, Clone)]
pub struct NameEntry {
    identifier: NominalIdentifier,
    owner: Option<NominalIdentifier>,
    name: Name,
}

/// The mathematical form of a name-table row.
pub struct EntryModel {
    pub identifier: IdModel,
    pub owner: Option<IdModel>,
    pub name: Seq<char>,
}

impl View for NameEntry {
    type V = EntryModel;

    closed spec fn view(&self) -> EntryModel {
        EntryModel {
            identifier: self.identifier@,
            owner: owned_owner_view(self.owner),
            name: self.name@,
        }
    }
}

pub open spec fn entries_model(s: Seq<NameEntry>) -> Seq<EntryModel> {
    Seq::new(s.len(), |i: int| s[i]@)
}

impl NameEntry {
    pub fn identifier(&self) -> (r: NominalIdentifier)
        ensures
            r@ == self@.identifier,
    {
        self.identifier
    }

    /// The owner identifier of a member row; `None` for a top-level row.
    pub fn owner(&self) -> (r: Option<NominalIdentifier>)
        ensures
            owned_owner_view(r) == self@.owner,
    {
        self.owner
    }

    /// The row's stored name.
    pub fn name(&self) -> (r: &Name)
        ensures
            r@ == self@.name,
    {
        &self.name
    }

    fn duplicate(&self) -> (r: Self)
        ensures
            r@ == self@,
    {
        NameEntry { identifier: self.identifier, owner: self.owner, name: self.name.clone() }
    }

    fn same(&self, other: &Self) -> (r: bool)
        ensures
            r == (self@ == other@),
    {
        self.identifier.same(&other.identifier) && same_owner(self.owner.as_ref(), other.owner.as_ref())
            && self.name.same(&other.name)
    }
}

/// One declaration to place in a name table: its kind, its owner when it is a
/// member, and its stored name.
#[derive(Debug, Clone)]
pub struct NameDeclaration {
    kind: DeclarationKind,
    owner: Option<NominalIdentifier>,
    name: Name,
}

/// The mathematical form of a declaration to place.
pub struct DeclaredModel {
    pub kind: DeclarationKind,
    pub owner: Option<IdModel>,
    pub name: Seq<char>,
}

impl View for NameDeclaration {
    type V = DeclaredModel;

    closed spec fn view(&self) -> DeclaredModel {
        DeclaredModel { kind: self.kind, owner: owned_owner_view(self.owner), name: self.name@ }
    }
}

impl NameDeclaration {
    pub fn top_level(kind: DeclarationKind, name: Name) -> (r: Self)
        ensures
            r@ == (DeclaredModel { kind, owner: None, name: name@ }),
    {
        NameDeclaration { kind, owner: None, name }
    }

    pub fn member(kind: DeclarationKind, owner: NominalIdentifier, local_name: Name) -> (r: Self)
        ensures
            r@ == (DeclaredModel { kind, owner: Some(owner@), name: local_name@ }),
    {
        NameDeclaration { kind, owner: Some(owner), name: local_name }
    }
}

/// A mapping from nominal identifier to current name, held sorted by
/// identifier.
#[derive(Debug, Clone)]
pub struct NameTable {
    entries: Vec<NameEntry>,
}

impl View for NameTable {
    type V = Seq<EntryModel>;

    closed spec fn view(&self) -> Seq<EntryModel> {
        entries_model(self.entries@)
    }
}

/// The predicate: a row carries identifier `id`.
pub open spec fn row_of(id: IdModel) -> spec_fn(EntryModel) -> bool {
    |e: EntryModel| e.identifier == id
}

/// The predicate: a row has the given kind, owner scope, and stored name.
pub open spec fn row_matches(kind: DeclarationKind, owner: Option<IdModel>, name: Seq<char>) -> spec_fn(
    EntryModel,
) -> bool {
    |e: EntryModel| e.identifier.kind == kind && e.owner == owner && e.name == name
}

/// The current name of an identifier: the name of its first row.
pub open spec fn name_lookup(t: Seq<EntryModel>, id: IdModel) -> Option<Seq<char>> {
    match first_index(t, row_of(id)) {
        Some(i) => Some(t[i].name),
        None => None,
    }
}

/// The identifier of the first row with the given kind, owner scope, and name.
pub open spec fn lookup(t: Seq<EntryModel>, kind: DeclarationKind, owner: Option<IdModel>, name: Seq<char>) -> Option<
    IdModel,
> {
    match first_index(t, row_matches(kind, owner, name)) {
        Some(i) => Some(t[i].identifier),
        None => None,
    }
}

/// The identifier a declaration carries against a prior table: the one bound
/// to its kind, owner scope, and name, or else a fresh mint.
pub open spec fn associated(t: Seq<EntryModel>, kind: DeclarationKind, owner: Option<IdModel>, name: Seq<char>) -> IdModel {
    match lookup(t, kind, owner, name) {
        Some(id) => id,
        None => match owner {
            Some(o) => member_id(kind, o, name),
            None => top_level_id(kind, name),
        },
    }
}

/// The row a declaration produces against a prior table.
pub open spec fn row_for(prior: Seq<EntryModel>, d: DeclaredModel) -> EntryModel {
    EntryModel { identifier: associated(prior, d.kind, d.owner, d.name), owner: d.owner, name: d.name }
}

/// Whether no row orders after a later row.
pub open spec fn sorted_by_id(t: Seq<EntryModel>) -> bool {
    forall|i: int, j: int| 0 <= i < j < t.len() ==> !id_before(#[trigger] t[j].identifier, #[trigger] t[i].identifier)
}

/// Whether no two neighbouring rows are identical.
pub open spec fn adjacent_distinct(t: Seq<EntryModel>) -> bool {
    forall|i: int| 0 <= i < t.len() - 1 ==> #[trigger] t[i] != t[i + 1]
}

/// Whether `x` is a row of `t`.
pub open spec fn holds_row(t: Seq<EntryModel>, x: EntryModel) -> bool {
    exists|i: int| 0 <= i < t.len() && #[trigger] t[i] == x
}

/// The table after renaming the first row carrying `id` to `name`.
pub open spec fn renamed(t: Seq<EntryModel>, id: IdModel, name: Seq<char>) -> Seq<EntryModel> {
    match first_index(t, row_of(id)) {
        Some(i) => t.update(i, EntryModel { name, ..t[i] }),
        None => t,
    }
}

/// Whether some other identifier of the same kind already holds `name` in the
/// owner scope of `id`'s row.
pub open spec fn rename_conflict(t: Seq<EntryModel>, id: IdModel, name: Seq<char>) -> bool {
    match first_index(t, row_of(id)) {
        Some(i) => match lookup(t, id.kind, t[i].owner, name) {
            Some(holder) => holder != id,
            None => false,
        },
        None => false,
    }
}

/// The error a refused rename reports: an absent identifier by its hex
/// digest; else the name's current holder and the requested identifier, by
/// theirs.
pub open spec fn rename_error(e: SchemaError, t: Seq<EntryModel>, id: IdModel, name: Seq<char>) -> bool {
    if name_lookup(t, id) is None {
        e matches SchemaError::NameTableIdentifierAbsent { identifier } && identifier@ == crate::text::hex_seq(
            id.digest,
        )
    } else {
        &&& rename_conflict(t, id, name)
        &&& e matches SchemaError::NameTableNameConflict { kind, name: held, holder, requested } && kind == id.kind
            && held@ == name && requested@ == crate::text::hex_seq(id.digest) && holder@ == crate::text::hex_seq(
            lookup(t, id.kind, t[first_index(t, row_of(id))->0].owner, name)->0.digest,
        )
    }
}

/// The view of a list of declarations.
pub open spec fn declarations_view(s: Seq<NameDeclaration>) -> Seq<DeclaredModel> {
    Seq::new(s.len(), |i: int| s[i]@)
}

impl NameTable {
    pub fn empty() -> (r: Self)
        ensures
            r@ == Seq::<EntryModel>::empty(),
    {
        let r = NameTable { entries: Vec::new() };
        assert(r@ =~= Seq::<EntryModel>::empty());
        r
    }

    pub fn entries(&self) -> (r: &[NameEntry])
        ensures
            entries_model(r@) == self@,
    {
        self.entries.as_slice()
    }

    /// The index of the first row carrying `identifier`.
    fn position_of(&self, identifier: &NominalIdentifier) -> (r: Option<usize>)
        ensures
            match r {
                Some(i) => i < self@.len() && first_index(self@, row_of(identifier@)) == Some(i as int),
                None => first_index(self@, row_of(identifier@)) is None,
            },
    {
        let ghost p = row_of(identifier@);
        let mut i: usize = 0;
        while i < self.entries.len()
            invariant
                i <= self.entries@.len(),
                self@.len() == self.entries@.len(),
                p == row_of(identifier@),
                first_index(self@.take(i as int), p) is None,
            decreases self.entries.len() - i,
        {
            proof {
                lemma_first_index_step(self@, p, i as int);
            }
            assert(self@[i as int] == self.entries@[i as int]@);
            if self.entries[i].identifier.same(identifier) {
                proof {
                    lemma_first_index_found(self@, p, i as int);
                }
                return Some(i);
            }
            i += 1;
        }
        proof {
            lemma_first_index_absent(self@, p);
        }
        None
    }

    /// The current name of an identifier, if the table holds it.
    pub fn name_of(&self, identifier: &NominalIdentifier) -> (r: Option<&Name>)
        ensures
            match r {
                Some(n) => name_lookup(self@, identifier@) == Some(n@),
                None => name_lookup(self@, identifier@) is None,
            },
    {
        match self.position_of(identifier) {
            Some(i) => {
                assert(self@[i as int] == self.entries@[i as int]@);
                Some(&self.entries[i].name)
            },
            None => None,
        }
    }

    /// The current name of an identifier, or `CoreProjectionNameAbsent` when
    /// the table has no row for it.
    pub fn projected_name(&self, identifier: &NominalIdentifier) -> (r: Result<&Name, SchemaError>)
        ensures
            match r {
                Ok(n) => name_lookup(self@, identifier@) == Some(n@),
                Err(e) => name_lookup(self@, identifier@) is None && (e matches SchemaError::CoreProjectionNameAbsent {
                    identifier: hex,
                } && hex@ == crate::text::hex_seq(identifier@.digest)),
            },
    {
        match self.name_of(identifier) {
            Some(n) => Ok(n),
            None => Err(SchemaError::CoreProjectionNameAbsent { identifier: identifier.to_hex() }),
        }
    }

    /// The identifier of the first row with the given kind, owner scope, and
    /// stored name.
    fn find(&self, kind: DeclarationKind, owner: Option<&NominalIdentifier>, name: &Name) -> (r: Option<
        NominalIdentifier,
    >)
        ensures
            match r {
                Some(id) => lookup(self@, kind, owner_view(owner), name@) == Some(id@),
                None => lookup(self@, kind, owner_view(owner), name@) is None,
            },
    {
        let ghost p = row_matches(kind, owner_view(owner), name@);
        let mut i: usize = 0;
        while i < self.entries.len()
            invariant
                i <= self.entries@.len(),
                self@.len() == self.entries@.len(),
                p == row_matches(kind, owner_view(owner), name@),
                first_index(self@.take(i as int), p) is None,
            decreases self.entries.len() - i,
        {
            proof {
                lemma_first_index_step(self@, p, i as int);
            }
            let entry = &self.entries[i];
            assert(self@[i as int] == entry@);
            if entry.identifier.kind == kind && same_owner(entry.owner.as_ref(), owner) && entry.name.same(name) {
                proof {
                    lemma_first_index_found(self@, p, i as int);
                }
                return Some(entry.identifier);
            }
            i += 1;
        }
        proof {
            lemma_first_index_absent(self@, p);
        }
        None
    }

    /// The top-level identifier currently bound to a name of the given kind.
    pub fn identifier_of(&self, kind: DeclarationKind, name: &Name) -> (r: Option<NominalIdentifier>)
        ensures
            match r {
                Some(id) => lookup(self@, kind, None, name@) == Some(id@),
                None => lookup(self@, kind, None, name@) is None,
            },
    {
        self.find(kind, None, name)
    }

    /// The member identifier currently bound to a local name under an owner.
    pub fn member_identifier_of(&self, kind: DeclarationKind, owner: &NominalIdentifier, local_name: &Name) -> (r:
        Option<NominalIdentifier>)
        ensures
            match r {
                Some(id) => lookup(self@, kind, Some(owner@), local_name@) == Some(id@),
                None => lookup(self@, kind, Some(owner@), local_name@) is None,
            },
    {
        self.find(kind, Some(owner), local_name)
    }

    /// The identifier a declaration carries: the one already bound to its
    /// kind, owner scope, and name, or else a fresh mint.
    fn associate(&self, kind: DeclarationKind, owner: Option<&NominalIdentifier>, name: &Name) -> (r:
        NominalIdentifier)
        ensures
            r@ == associated(self@, kind, owner_view(owner), name@),
    {
        match self.find(kind, owner, name) {
            Some(id) => id,
            None => match owner {
                Some(owner) => NominalIdentifier::mint_member(kind, owner, name.as_str()),
                None => NominalIdentifier::mint(kind, name.as_str()),
            },
        }
    }

    /// Rename a declaration through the table: keep its identifier and replace
    /// only its name. An absent identifier, or a name already held by another
    /// identifier of the same kind in the same owner scope, is refused and
    /// leaves the table unchanged.
    pub fn rename(&mut self, identifier: &NominalIdentifier, new_name: Name) -> (r: Result<(), SchemaError>)
        ensures
            r is Ok <==> (name_lookup(old(self)@, identifier@) is Some && !rename_conflict(
                old(self)@,
                identifier@,
                new_name@,
            )),
            r is Ok ==> final(self)@ == renamed(old(self)@, identifier@, new_name@),
            r is Err ==> final(self)@ == old(self)@,
            r matches Err(e) ==> rename_error(e, old(self)@, identifier@, new_name@),
    {
        let index = match self.position_of(identifier) {
            Some(i) => i,
            None => {
                return Err(SchemaError::NameTableIdentifierAbsent { identifier: identifier.to_hex() });
            },
        };
        assert(self@[index as int] == self.entries@[index as int]@);
        let owner = self.entries[index].owner;
        if let Some(holder) = self.find(identifier.kind, owner.as_ref(), &new_name) {
            if !holder.same(identifier) {
                return Err(
                    SchemaError::NameTableNameConflict {
                        kind: identifier.kind,
                        name: crate::text::owned(new_name.as_str()),
                        holder: holder.to_hex(),
                        requested: identifier.to_hex(),
                    },
                );
            }
        }
        let entry = NameEntry { identifier: self.entries[index].identifier, owner, name: new_name };
        self.entries.set(index, entry);
        assert(self@ =~= renamed(old(self)@, identifier@, new_name@));
        Ok(())
    }
}


/// Whether text `a` orders strictly before text `b`.
fn text_before_exec(a: &str, b: &str) -> (r: bool)
    ensures
        r == text_before(a@, b@),
{
    let ca = crate::text::chars_of(a);
    let cb = crate::text::chars_of(b);
    let mut i: usize = 0;
    assert(a@.skip(0) =~= a@);
    assert(b@.skip(0) =~= b@);
    while i < ca.len() && i < cb.len()
        invariant
            ca@ == a@,
            cb@ == b@,
            i <= ca@.len(),
            i <= cb@.len(),
            text_before(a@, b@) == text_before(a@.skip(i as int), b@.skip(i as int)),
        decreases ca.len() - i,
    {
        let x = ca[i];
        let y = cb[i];
        assert(a@.skip(i as int)[0] == x && b@.skip(i as int)[0] == y);
        if x != y {
            return x < y;
        }
        assert(a@.skip(i as int).drop_first() =~= a@.skip(i + 1));
        assert(b@.skip(i as int).drop_first() =~= b@.skip(i + 1));
        i += 1;
    }
    i == ca.len() && i < cb.len()
}

/// Whether row `a` orders strictly before row `b`.
fn row_before_exec(a: &NameEntry, b: &NameEntry) -> (r: bool)
    ensures
        r == row_before(a@, b@),
{
    if a.identifier.before(&b.identifier) {
        return true;
    }
    if !a.identifier.same(&b.identifier) {
        return false;
    }
    match (&a.owner, &b.owner) {
        (None, Some(_)) => true,
        (Some(_), None) => false,
        (Some(x), Some(y)) => {
            if x.before(y) {
                true
            } else if !x.same(y) {
                false
            } else {
                text_before_exec(a.name.as_str(), b.name.as_str())
            }
        },
        (None, None) => text_before_exec(a.name.as_str(), b.name.as_str()),
    }
}

impl NameTable {
    /// The rows the declarations produce against this table, in declaration
    /// order.
    fn rows_for(&self, declarations: &Vec<NameDeclaration>) -> (r: Vec<NameEntry>)
        ensures
            r@.len() == declarations@.len(),
            forall|j: int| 0 <= j < r@.len() ==> (#[trigger] r@[j])@ == row_for(self@, declarations@[j]@),
    {
        let mut rows: Vec<NameEntry> = Vec::new();
        let mut j: usize = 0;
        while j < declarations.len()
            invariant
                j <= declarations@.len(),
                rows@.len() == j,
                forall|k: int| 0 <= k < j ==> (#[trigger] rows@[k])@ == row_for(self@, declarations@[k]@),
            decreases declarations.len() - j,
        {
            let declared = &declarations[j];
            let identifier = self.associate(declared.kind, declared.owner.as_ref(), &declared.name);
            rows.push(NameEntry { identifier, owner: declared.owner, name: declared.name.clone() });
            j += 1;
        }
        rows
    }

    /// Build the table for a set of declarations, re-associating each against
    /// `prior`: a declaration whose kind, owner scope, and name the prior binds
    /// keeps that identifier; any other mints fresh. The rows come out sorted
    /// by identifier, neighbouring duplicates collapsed, so declaration order
    /// does not decide the table.
    pub fn build(prior: &NameTable, declarations: Vec<NameDeclaration>) -> (r: NameTable)
        ensures
            built_from(prior@, declarations_view(declarations@), r@),
            sorted_by_id(r@),
            adjacent_distinct(r@),
            forall|i: int|
                0 <= i < r@.len() ==> exists|j: int|
                    0 <= j < declarations@.len() && #[trigger] r@[i] == row_for(prior@, declarations@[j]@),
            forall|j: int|
                0 <= j < declarations@.len() ==> holds_row(r@, #[trigger] row_for(prior@, declarations@[j]@)),
    {
        let rows = prior.rows_for(&declarations);
        let ghost rs = entries_model(rows@);
        // Insertion by row order.
        let mut sorted: Vec<NameEntry> = Vec::new();
        let mut i: usize = 0;
        while i < rows.len()
            invariant
                i <= rows@.len(),
                rs == entries_model(rows@),
                sorted_by_row(entries_model(sorted@)),
                forall|k: int|
                    0 <= k < sorted@.len() ==> exists|j: int|
                        0 <= j < i && #[trigger] entries_model(sorted@)[k] == rs[j],
                forall|j: int| 0 <= j < i ==> holds_row(entries_model(sorted@), #[trigger] rs[j]),
            decreases rows.len() - i,
        {
            let row = &rows[i];
            assert(rs[i as int] == row@);
            let ghost before = entries_model(sorted@);
            let mut position: usize = 0;
            while position < sorted.len() && !row_before_exec(row, &sorted[position])
                invariant
                    position <= sorted@.len(),
                    before == entries_model(sorted@),
                    forall|k: int| 0 <= k < position ==> !row_before(row@, #[trigger] before[k]),
                decreases sorted.len() - position,
            {
                assert(before[position as int] == sorted@[position as int]@);
                position += 1;
            }
            if position < sorted.len() {
                assert(before[position as int] == sorted@[position as int]@);
            }
            sorted.insert(position, row.duplicate());
            let ghost after = entries_model(sorted@);
            assert(after =~= before.insert(position as int, row@));
            assert(sorted_by_row(after)) by {
                assert forall|a: int, b: int| 0 <= a < b < after.len() implies !row_before(
                    #[trigger] after[b],
                    #[trigger] after[a],
                ) by {
                    if b < position {
                    } else if b == position {
                        assert(after[a] == before[a]);
                    } else if a < position {
                        assert(after[b] == before[b - 1]);
                        assert(after[a] == before[a]);
                    } else if a == position {
                        assert(after[b] == before[b - 1]);
                        assert(row_before(row@, before[position as int]));
                        lemma_row_before_order(before[b - 1], row@, before[position as int]);
                        lemma_row_before_order(row@, before[position as int], row@);
                    } else {
                        assert(after[b] == before[b - 1]);
                        assert(after[a] == before[a - 1]);
                    }
                }
            }
            assert forall|k: int| 0 <= k < sorted@.len() implies exists|j: int|
                0 <= j < i + 1 && #[trigger] entries_model(sorted@)[k] == rs[j] by {
                if k < position {
                    assert(after[k] == before[k]);
                } else if k == position {
                    assert(after[k] == rs[i as int]);
                } else {
                    assert(after[k] == before[k - 1]);
                }
            }
            assert forall|j: int| 0 <= j < i + 1 implies holds_row(after, #[trigger] rs[j]) by {
                if j == i {
                    assert(after[position as int] == rs[j]);
                } else {
                    let k = choose|k: int| 0 <= k < before.len() && #[trigger] before[k] == rs[j];
                    if k < position {
                        assert(after[k] == rs[j]);
                    } else {
                        assert(after[k + 1] == rs[j]);
                    }
                }
            }
            i += 1;
        }
        // Collapse neighbouring identical rows.
        let ghost ss = entries_model(sorted@);
        let mut out: Vec<NameEntry> = Vec::new();
        let mut k: usize = 0;
        while k < sorted.len()
            invariant
                k <= sorted@.len(),
                ss == entries_model(sorted@),
                sorted_by_row(ss),
                adjacent_distinct(entries_model(out@)),
                out@.len() <= k,
                k > 0 ==> out@.len() > 0 && out@[out@.len() - 1]@ == ss[k - 1],
                forall|a: int| 0 <= a < out@.len() ==> exists|b: int| 0 <= b < k && #[trigger] out@[a]@ == ss[b],
                forall|a: int, b: int| 0 <= a < out@.len() && k <= b < ss.len() ==> !row_before(
                    #[trigger] ss[b],
                    #[trigger] out@[a]@,
                ),
                sorted_by_row(entries_model(out@)),
                forall|b: int| 0 <= b < k ==> holds_row(entries_model(out@), #[trigger] ss[b]),
            decreases sorted.len() - k,
        {
            assert(ss[k as int] == sorted@[k as int]@);
            let ghost before = entries_model(out@);
            if out.len() > 0 && out[out.len() - 1].same(&sorted[k]) {
                assert(holds_row(before, ss[k as int])) by {
                    assert(before[before.len() - 1] == ss[k as int]);
                }
            } else {
                out.push(sorted[k].duplicate());
                let ghost after = entries_model(out@);
                assert(after =~= before.push(ss[k as int]));
                assert(holds_row(after, ss[k as int])) by {
                    assert(after[after.len() - 1] == ss[k as int]);
                }
                assert forall|b: int| 0 <= b < k implies holds_row(after, #[trigger] ss[b]) by {
                    let a = choose|a: int| 0 <= a < before.len() && #[trigger] before[a] == ss[b];
                    assert(after[a] == ss[b]);
                }
            }
            k += 1;
            assert forall|a: int, b: int| 0 <= a < out@.len() && k <= b < ss.len() implies !row_before(
                #[trigger] ss[b],
                #[trigger] out@[a]@,
            ) by {
                let c = choose|c: int| 0 <= c < k && #[trigger] out@[a]@ == ss[c];
            }
        }
        let r = NameTable { entries: out };
        assert forall|a: int| 0 <= a < r@.len() implies exists|j: int|
            0 <= j < declarations@.len() && #[trigger] r@[a] == row_for(prior@, declarations@[j]@) by {
            assert(r@[a] == out@[a]@);
            let b = choose|b: int| 0 <= b < ss.len() && #[trigger] out@[a]@ == ss[b];
            let j = choose|j: int| 0 <= j < rows@.len() && #[trigger] entries_model(sorted@)[b] == rs[j];
            assert(rs[j] == rows@[j]@);
        }
        assert forall|j: int| 0 <= j < declarations@.len() implies holds_row(
            r@,
            #[trigger] row_for(prior@, declarations@[j]@),
        ) by {
            assert(rs[j] == rows@[j]@);
            let b = choose|b: int| 0 <= b < ss.len() && #[trigger] ss[b] == rs[j];
        }
        assert(built_from(prior@, declarations_view(declarations@), r@)) by {
            let dv = declarations_view(declarations@);
            assert forall|i: int| 0 <= i < r@.len() implies exists|j: int|
                0 <= j < dv.len() && #[trigger] r@[i] == row_for(prior@, dv[j]) by {
                let j = choose|j: int| 0 <= j < declarations@.len() && #[trigger] r@[i] == row_for(prior@, declarations@[j]@);
                assert(dv[j] == declarations@[j]@);
            }
            assert forall|j: int| 0 <= j < dv.len() implies holds_row(r@, #[trigger] row_for(prior@, dv[j])) by {
                assert(dv[j] == declarations@[j]@);
            }
        }
        r
    }
}


/// An in-progress declaration harvest for one name-table build: each
/// declaration is answered with the identifier the finished table will hold.
pub struct NameHarvest<'prior> {
    prior: &'prior NameTable,
    declarations: Vec<NameDeclaration>,
}

impl<'prior> NameHarvest<'prior> {
    /// The table the harvest re-associates against.
    pub closed spec fn prior_view(&self) -> Seq<EntryModel> {
        self.prior@
    }

    /// The declarations recorded so far, in order.
    pub closed spec fn declared_view(&self) -> Seq<DeclaredModel> {
        declarations_view(self.declarations@)
    }

    pub fn new(prior: &'prior NameTable) -> (r: Self)
        ensures
            r.prior_view() == prior@,
            r.declared_view() == Seq::<DeclaredModel>::empty(),
    {
        let r = NameHarvest { prior, declarations: Vec::new() };
        assert(r.declared_view() =~= Seq::<DeclaredModel>::empty());
        r
    }

    /// Record one top-level declaration and answer the identifier it carries.
    pub fn declare(&mut self, kind: DeclarationKind, name: &Name) -> (r: NominalIdentifier)
        ensures
            r@ == associated(old(self).prior_view(), kind, None, name@),
            final(self).prior_view() == old(self).prior_view(),
            final(self).declared_view() == old(self).declared_view().push(
                DeclaredModel { kind, owner: None, name: name@ },
            ),
    {
        let identifier = self.prior.associate(kind, None, name);
        self.declarations.push(NameDeclaration::top_level(kind, name.clone()));
        assert(self.declared_view() =~= old(self).declared_view().push(
            DeclaredModel { kind, owner: None, name: name@ },
        ));
        identifier
    }

    /// Record one member declaration under an owner and answer its identifier.
    pub fn declare_member(&mut self, kind: DeclarationKind, owner: NominalIdentifier, local_name: &Name) -> (r:
        NominalIdentifier)
        ensures
            r@ == associated(old(self).prior_view(), kind, Some(owner@), local_name@),
            final(self).prior_view() == old(self).prior_view(),
            final(self).declared_view() == old(self).declared_view().push(
                DeclaredModel { kind, owner: Some(owner@), name: local_name@ },
            ),
    {
        let identifier = self.prior.associate(kind, Some(&owner), local_name);
        self.declarations.push(NameDeclaration::member(kind, owner, local_name.clone()));
        assert(self.declared_view() =~= old(self).declared_view().push(
            DeclaredModel { kind, owner: Some(owner@), name: local_name@ },
        ));
        identifier
    }

    /// Answer a member's identifier without recording a row.
    pub fn associate_member(&self, kind: DeclarationKind, owner: NominalIdentifier, local_name: &Name) -> (r:
        NominalIdentifier)
        ensures
            r@ == associated(self.prior_view(), kind, Some(owner@), local_name@),
    {
        self.prior.associate(kind, Some(&owner), local_name)
    }

    /// Answer a top-level reference's identifier without recording a row.
    pub fn associate(&self, kind: DeclarationKind, name: &Name) -> (r: NominalIdentifier)
        ensures
            r@ == associated(self.prior_view(), kind, None, name@),
    {
        self.prior.associate(kind, None, name)
    }

    /// Finish the harvest into the table for everything declared.
    pub fn into_table(self) -> (r: NameTable)
        ensures
            built_from(self.prior_view(), self.declared_view(), r@),
            sorted_by_id(r@),
            adjacent_distinct(r@),
            forall|i: int|
                0 <= i < r@.len() ==> exists|j: int|
                    0 <= j < self.declared_view().len() && #[trigger] r@[i] == row_for(
                        self.prior_view(),
                        self.declared_view()[j],
                    ),
            forall|j: int|
                0 <= j < self.declared_view().len() ==> holds_row(
                    r@,
                    #[trigger] row_for(self.prior_view(), self.declared_view()[j]),
                ),
    {
        let ghost dv = self.declared_view();
        let r = NameTable::build(self.prior, self.declarations);
        assert forall|j: int| 0 <= j < dv.len() implies holds_row(
            r@,
            #[trigger] row_for(self.prior_view(), dv[j]),
        ) by {
            assert(dv[j] == self.declarations@[j]@);
        }
        assert forall|i: int| 0 <= i < r@.len() implies exists|j: int|
            0 <= j < dv.len() && #[trigger] r@[i] == row_for(self.prior_view(), dv[j]) by {
            let j = choose|j: int|
                0 <= j < self.declarations@.len() && #[trigger] r@[i] == row_for(
                    self.prior_view(),
                    self.declarations@[j]@,
                );
            assert(dv[j] == self.declarations@[j]@);
        }
        r
    }
}

/// A successful rename reads back: the renamed identifier's current name is
/// the new name.
pub proof fn law_rename_reads_back(t: Seq<EntryModel>, id: IdModel, name: Seq<char>)
    requires
        name_lookup(t, id) is Some,
    ensures
        name_lookup(renamed(t, id, name), id) == Some(name),
{
    crate::seqs::lemma_first_index(t, row_of(id));
    let i = first_index(t, row_of(id))->Some_0;
    let u = renamed(t, id, name);
    assert forall|j: int| 0 <= j < i implies !row_of(id)(#[trigger] u[j]) by {
        assert(u[j] == t[j]);
    }
    crate::seqs::lemma_first_index_is(u, row_of(id), i);
}

/// A rename keeps every row's identifier and owner; only a name moves.
pub proof fn law_rename_keeps_identifiers(t: Seq<EntryModel>, id: IdModel, name: Seq<char>)
    ensures
        renamed(t, id, name).len() == t.len(),
        forall|j: int|
            0 <= j < t.len() ==> (#[trigger] renamed(t, id, name)[j]).identifier == t[j].identifier
                && renamed(t, id, name)[j].owner == t[j].owner,
{
    crate::seqs::lemma_first_index(t, row_of(id));
}

/// A rename leaves the current name of every other identifier unchanged.
pub proof fn law_rename_leaves_others(t: Seq<EntryModel>, id: IdModel, name: Seq<char>, other: IdModel)
    requires
        other != id,
    ensures
        name_lookup(renamed(t, id, name), other) == name_lookup(t, other),
{
    crate::seqs::lemma_first_index(t, row_of(id));
    let u = renamed(t, id, name);
    assert forall|j: int| 0 <= j < t.len() implies (row_of(other)(#[trigger] u[j]) == row_of(other)(t[j])
        && (row_of(other)(t[j]) ==> u[j] == t[j])) by {}
    crate::seqs::lemma_first_index(t, row_of(other));
    crate::seqs::lemma_first_index(u, row_of(other));
    match first_index(t, row_of(other)) {
        Some(k) => {
            assert forall|j: int| 0 <= j < k implies !row_of(other)(#[trigger] u[j]) by {
                assert(!row_of(other)(t[j]));
            }
            crate::seqs::lemma_first_index_is(u, row_of(other), k);
        },
        None => {
            assert forall|j: int| 0 <= j < u.len() implies !row_of(other)(#[trigger] u[j]) by {
                assert(!row_of(other)(t[j]));
            }
            crate::seqs::lemma_first_index_none(u, row_of(other));
        },
    }
}

/// After a successful rename of a top-level declaration, its new name
/// resolves to its identifier.
pub proof fn law_rename_resolves_new_name(t: Seq<EntryModel>, id: IdModel, name: Seq<char>)
    requires
        name_lookup(t, id) is Some,
        !rename_conflict(t, id, name),
        t[first_index(t, row_of(id))->Some_0].owner is None,
    ensures
        lookup(renamed(t, id, name), id.kind, None, name) == Some(id),
{
    crate::seqs::lemma_first_index(t, row_of(id));
    let i = first_index(t, row_of(id))->Some_0;
    let u = renamed(t, id, name);
    let p = row_matches(id.kind, None, name);
    assert(p(u[i]));
    crate::seqs::lemma_first_index(u, p);
    crate::seqs::lemma_first_index(t, p);
    let f = first_index(u, p)->Some_0;
    if f < i {
        assert(u[f] == t[f]);
        let g = first_index(t, p)->Some_0;
        assert(g <= f);
        assert(t[g].identifier == id);
        assert(row_of(id)(t[g]));
        assert(false);
    }
}


/// After a rename of a top-level declaration that changes its name, the old
/// name no longer resolves to its identifier, whenever the identifier has a
/// single row.
pub proof fn law_rename_retires_old_name(t: Seq<EntryModel>, id: IdModel, name: Seq<char>)
    requires
        name_lookup(t, id) is Some,
        name_lookup(t, id)->Some_0 != name,
        t[first_index(t, row_of(id))->Some_0].owner is None,
        forall|a: int, b: int|
            0 <= a < t.len() && 0 <= b < t.len() && #[trigger] t[a].identifier == id && #[trigger] t[b].identifier
                == id ==> a == b,
    ensures
        lookup(renamed(t, id, name), id.kind, None, name_lookup(t, id)->Some_0) != Some(id),
{
    crate::seqs::lemma_first_index(t, row_of(id));
    let i = first_index(t, row_of(id))->Some_0;
    let old_name = t[i].name;
    let u = renamed(t, id, name);
    let p = row_matches(id.kind, None, old_name);
    crate::seqs::lemma_first_index(u, p);
    if lookup(u, id.kind, None, old_name) == Some(id) {
        let f = first_index(u, p)->Some_0;
        assert(u[f].identifier == id && u[f].name == old_name);
        if f != i {
            assert(u[f] == t[f]);
            assert(t[f].identifier == id && t[i].identifier == id);
        }
        assert(u[i].name == name);
    }
}

/// Whether every row orders strictly before every later row.
pub open spec fn strictly_sorted(t: Seq<EntryModel>) -> bool {
    forall|i: int, j: int| 0 <= i < j < t.len() ==> id_before(#[trigger] t[i].identifier, #[trigger] t[j].identifier)
}

/// Whether rows that share an identifier are the same row.
pub open spec fn identifiers_determine_rows(t: Seq<EntryModel>) -> bool {
    forall|i: int, j: int|
        0 <= i < t.len() && 0 <= j < t.len() && #[trigger] t[i].identifier == #[trigger] t[j].identifier ==> t[i] == t[j]
}

/// Whether every identifier of `t` carries a full 16-byte digest.
pub open spec fn full_digests(t: Seq<EntryModel>) -> bool {
    forall|i: int| 0 <= i < t.len() ==> (#[trigger] t[i]).identifier.digest.len() == 16
}

/// Equal big-endian values of equally long byte strings mean equal strings.
proof fn lemma_be_value_injective(a: Seq<u8>, b: Seq<u8>)
    requires
        a.len() == b.len(),
        be_value(a) == be_value(b),
    ensures
        a == b,
    decreases a.len(),
{
    if a.len() > 0 {
        let x = be_value(a.drop_last());
        let y = be_value(b.drop_last());
        let r = a.last() as int;
        let q = b.last() as int;
        assert(x == y && r == q) by (nonlinear_arith)
            requires
                x * 256 + r == y * 256 + q,
                0 <= r < 256,
                0 <= q < 256,
                x >= 0,
                y >= 0,
        ;
        lemma_be_value_injective(a.drop_last(), b.drop_last());
        assert(a =~= a.drop_last().push(a.last()));
        assert(b =~= b.drop_last().push(b.last()));
    }
}

/// A sorted table without neighbouring duplicates whose identifiers determine
/// its rows is strictly sorted.
proof fn lemma_strictly_sorted(t: Seq<EntryModel>)
    requires
        sorted_by_id(t),
        adjacent_distinct(t),
        identifiers_determine_rows(t),
        full_digests(t),
    ensures
        strictly_sorted(t),
{
    assert forall|i: int, j: int| 0 <= i < j < t.len() implies id_before(
        #[trigger] t[i].identifier,
        #[trigger] t[j].identifier,
    ) by {
        if !id_before(t[i].identifier, t[j].identifier) {
            assert(!id_before(t[j].identifier, t[i].identifier));
            assert(!id_before(t[i + 1].identifier, t[i].identifier));
            if i + 1 < j {
                assert(!id_before(t[j].identifier, t[i + 1].identifier));
            }
            let a = t[i].identifier;
            let b = t[i + 1].identifier;
            assert(kind_tag(a.kind) == kind_tag(b.kind) && be_value(a.digest) == be_value(b.digest));
            lemma_be_value_injective(a.digest, b.digest);
            assert(a.kind == b.kind);
            assert(a == b);
            assert(t[i] == t[i + 1]);
        }
    }
}

/// Two strictly sorted tables holding the same rows are the same table.
proof fn lemma_strictly_sorted_unique(t1: Seq<EntryModel>, t2: Seq<EntryModel>)
    requires
        strictly_sorted(t1),
        strictly_sorted(t2),
        forall|x: EntryModel| holds_row(t1, x) <==> holds_row(t2, x),
    ensures
        t1 == t2,
    decreases t1.len(),
{
    if t1.len() == 0 {
        if t2.len() > 0 {
            assert(holds_row(t2, t2[0]));
        }
        assert(t1 =~= t2);
    } else {
        assert(holds_row(t1, t1[0]));
        let k = choose|k: int| 0 <= k < t2.len() && #[trigger] t2[k] == t1[0];
        assert(holds_row(t2, t2[0]));
        let m = choose|m: int| 0 <= m < t1.len() && #[trigger] t1[m] == t2[0];
        if k > 0 {
            assert(id_before(t2[0].identifier, t2[k].identifier));
            if m > 0 {
                assert(id_before(t1[0].identifier, t1[m].identifier));
            }
        }
        assert(t1[0] == t2[0]);
        let r1 = t1.drop_first();
        let r2 = t2.drop_first();
        assert forall|x: EntryModel| holds_row(r1, x) <==> holds_row(r2, x) by {
            if holds_row(r1, x) {
                let a = choose|a: int| 0 <= a < r1.len() && #[trigger] r1[a] == x;
                assert(t1[a + 1] == x);
                assert(holds_row(t1, x));
                let b = choose|b: int| 0 <= b < t2.len() && #[trigger] t2[b] == x;
                if b == 0 {
                    assert(id_before(t1[0].identifier, t1[a + 1].identifier));
                }
                assert(r2[b - 1] == x);
            }
            if holds_row(r2, x) {
                let a = choose|a: int| 0 <= a < r2.len() && #[trigger] r2[a] == x;
                assert(t2[a + 1] == x);
                assert(holds_row(t2, x));
                let b = choose|b: int| 0 <= b < t1.len() && #[trigger] t1[b] == x;
                if b == 0 {
                    assert(id_before(t2[0].identifier, t2[a + 1].identifier));
                }
                assert(r1[b - 1] == x);
            }
        }
        assert forall|i: int, j: int| 0 <= i < j < r1.len() implies id_before(
            #[trigger] r1[i].identifier,
            #[trigger] r1[j].identifier,
        ) by {
            assert(r1[i] == t1[i + 1] && r1[j] == t1[j + 1]);
        }
        assert forall|i: int, j: int| 0 <= i < j < r2.len() implies id_before(
            #[trigger] r2[i].identifier,
            #[trigger] r2[j].identifier,
        ) by {
            assert(r2[i] == t2[i + 1] && r2[j] == t2[j + 1]);
        }
        lemma_strictly_sorted_unique(r1, r2);
        assert(t1 =~= seq![t1[0]] + r1);
        assert(t2 =~= seq![t2[0]] + r2);
    }
}

/// Construction order does not decide a table: two tables, each sorted by
/// identifier with neighbouring duplicates collapsed (as `build` leaves
/// them), holding the same rows, in which an identifier determines its row,
/// are the same table.
pub proof fn law_tables_with_same_rows_are_equal(t1: Seq<EntryModel>, t2: Seq<EntryModel>)
    requires
        sorted_by_id(t1),
        adjacent_distinct(t1),
        sorted_by_id(t2),
        adjacent_distinct(t2),
        forall|x: EntryModel| holds_row(t1, x) <==> holds_row(t2, x),
        identifiers_determine_rows(t1),
        identifiers_determine_rows(t2),
        full_digests(t1),
        full_digests(t2),
    ensures
        t1 == t2,
{
    lemma_strictly_sorted(t1);
    lemma_strictly_sorted(t2);
    lemma_strictly_sorted_unique(t1, t2);
}


/// Whether text `a` orders strictly before text `b`: character by character
/// by code point, a proper prefix first.
pub open spec fn text_before(a: Seq<char>, b: Seq<char>) -> bool
    decreases a.len(),
{
    if a.len() == 0 {
        b.len() > 0
    } else if b.len() == 0 {
        false
    } else if a[0] != b[0] {
        a[0] < b[0]
    } else {
        text_before(a.drop_first(), b.drop_first())
    }
}

/// Whether owner scope `a` orders strictly before `b`: top level first, then
/// by the owner's identifier.
pub open spec fn owner_before(a: Option<IdModel>, b: Option<IdModel>) -> bool {
    match (a, b) {
        (None, Some(_)) => true,
        (Some(x), Some(y)) => id_before(x, y),
        _ => false,
    }
}

/// Whether row `a` orders strictly before row `b`: by identifier, then owner
/// scope, then name.
pub open spec fn row_before(a: EntryModel, b: EntryModel) -> bool {
    ||| id_before(a.identifier, b.identifier)
    ||| a.identifier == b.identifier && owner_before(a.owner, b.owner)
    ||| a.identifier == b.identifier && a.owner == b.owner && text_before(a.name, b.name)
}

/// Whether no row orders after a later row.
pub open spec fn sorted_by_row(t: Seq<EntryModel>) -> bool {
    forall|i: int, j: int| 0 <= i < j < t.len() ==> !row_before(#[trigger] t[j], #[trigger] t[i])
}

/// Whether every row orders strictly before every later row.
pub open spec fn strictly_sorted_by_row(t: Seq<EntryModel>) -> bool {
    forall|i: int, j: int| 0 <= i < j < t.len() ==> row_before(#[trigger] t[i], #[trigger] t[j])
}

/// Whether an identifier carries a full 16-byte digest.
pub open spec fn full_id(i: IdModel) -> bool {
    i.digest.len() == 16
}

/// Whether a row's identifier and owner carry full digests.
pub open spec fn full_row(e: EntryModel) -> bool {
    full_id(e.identifier) && (e.owner matches Some(o) ==> full_id(o))
}

proof fn lemma_text_before_irreflexive(a: Seq<char>)
    ensures
        !text_before(a, a),
    decreases a.len(),
{
    if a.len() > 0 {
        lemma_text_before_irreflexive(a.drop_first());
    }
}

proof fn lemma_text_before_transitive(a: Seq<char>, b: Seq<char>, c: Seq<char>)
    requires
        text_before(a, b),
        text_before(b, c),
    ensures
        text_before(a, c),
    decreases a.len(),
{
    if a.len() > 0 && b.len() > 0 && c.len() > 0 && a[0] == b[0] && b[0] == c[0] {
        lemma_text_before_transitive(a.drop_first(), b.drop_first(), c.drop_first());
    }
}

proof fn lemma_text_before_total(a: Seq<char>, b: Seq<char>)
    requires
        a != b,
    ensures
        text_before(a, b) || text_before(b, a),
    decreases a.len(),
{
    if a.len() > 0 && b.len() > 0 && a[0] == b[0] {
        if a.drop_first() == b.drop_first() {
            assert(a =~= seq![a[0]] + a.drop_first());
            assert(b =~= seq![b[0]] + b.drop_first());
        }
        lemma_text_before_total(a.drop_first(), b.drop_first());
    } else if a.len() > 0 && b.len() > 0 {
    } else if a.len() == 0 && b.len() == 0 {
        assert(a =~= b);
    }
}

proof fn lemma_id_before_total(x: IdModel, y: IdModel)
    requires
        full_id(x),
        full_id(y),
        x != y,
    ensures
        id_before(x, y) || id_before(y, x),
{
    if !id_before(x, y) && !id_before(y, x) {
        lemma_be_value_injective(x.digest, y.digest);
        assert(x.kind == y.kind);
    }
}

/// The row order is irreflexive and transitive.
pub proof fn lemma_row_before_order(a: EntryModel, b: EntryModel, c: EntryModel)
    ensures
        !row_before(a, a),
        row_before(a, b) && row_before(b, c) ==> row_before(a, c),
{
    lemma_text_before_irreflexive(a.name);
    if row_before(a, b) && row_before(b, c) {
        if a.identifier == b.identifier && b.identifier == c.identifier && a.owner == b.owner && b.owner == c.owner {
            lemma_text_before_transitive(a.name, b.name, c.name);
        }
    }
}

/// The row order is total on rows with full digests.
pub proof fn lemma_row_before_total(a: EntryModel, b: EntryModel)
    requires
        full_row(a),
        full_row(b),
        a != b,
    ensures
        row_before(a, b) || row_before(b, a),
{
    if a.identifier != b.identifier {
        lemma_id_before_total(a.identifier, b.identifier);
    } else if a.owner != b.owner {
        match (a.owner, b.owner) {
            (Some(x), Some(y)) => lemma_id_before_total(x, y),
            _ => {},
        }
    } else {
        assert(a.name != b.name);
        lemma_text_before_total(a.name, b.name);
    }
}

/// Two tables strictly sorted by row that hold the same rows are the same
/// table.
proof fn lemma_row_sorted_unique(t1: Seq<EntryModel>, t2: Seq<EntryModel>)
    requires
        strictly_sorted_by_row(t1),
        strictly_sorted_by_row(t2),
        forall|x: EntryModel| holds_row(t1, x) <==> holds_row(t2, x),
    ensures
        t1 == t2,
    decreases t1.len(),
{
    if t1.len() == 0 {
        if t2.len() > 0 {
            assert(holds_row(t2, t2[0]));
        }
        assert(t1 =~= t2);
    } else {
        assert(holds_row(t1, t1[0]));
        let k = choose|k: int| 0 <= k < t2.len() && #[trigger] t2[k] == t1[0];
        assert(holds_row(t2, t2[0]));
        let m = choose|m: int| 0 <= m < t1.len() && #[trigger] t1[m] == t2[0];
        if k > 0 {
            assert(row_before(t2[0], t2[k]));
            if m > 0 {
                assert(row_before(t1[0], t1[m]));
                lemma_row_before_order(t1[0], t2[0], t1[0]);
            } else {
                lemma_row_before_order(t1[0], t1[0], t1[0]);
            }
        }
        assert(t1[0] == t2[0]);
        let r1 = t1.drop_first();
        let r2 = t2.drop_first();
        assert forall|x: EntryModel| holds_row(r1, x) <==> holds_row(r2, x) by {
            if holds_row(r1, x) {
                let a = choose|a: int| 0 <= a < r1.len() && #[trigger] r1[a] == x;
                assert(t1[a + 1] == x);
                assert(holds_row(t1, x));
                let b = choose|b: int| 0 <= b < t2.len() && #[trigger] t2[b] == x;
                if b == 0 {
                    assert(row_before(t1[0], t1[a + 1]));
                    lemma_row_before_order(t1[0], t1[0], t1[0]);
                }
                assert(r2[b - 1] == x);
            }
            if holds_row(r2, x) {
                let a = choose|a: int| 0 <= a < r2.len() && #[trigger] r2[a] == x;
                assert(t2[a + 1] == x);
                assert(holds_row(t2, x));
                let b = choose|b: int| 0 <= b < t1.len() && #[trigger] t1[b] == x;
                if b == 0 {
                    assert(row_before(t2[0], t2[a + 1]));
                    lemma_row_before_order(t2[0], t2[0], t2[0]);
                }
                assert(r1[b - 1] == x);
            }
        }
        assert(strictly_sorted_by_row(r1)) by {
            assert forall|i: int, j: int| 0 <= i < j < r1.len() implies row_before(#[trigger] r1[i], #[trigger] r1[j]) by {
                assert(r1[i] == t1[i + 1] && r1[j] == t1[j + 1]);
            }
        }
        assert(strictly_sorted_by_row(r2)) by {
            assert forall|i: int, j: int| 0 <= i < j < r2.len() implies row_before(#[trigger] r2[i], #[trigger] r2[j]) by {
                assert(r2[i] == t2[i + 1] && r2[j] == t2[j + 1]);
            }
        }
        lemma_row_sorted_unique(r1, r2);
        assert(t1 =~= seq![t1[0]] + r1);
        assert(t2 =~= seq![t2[0]] + r2);
    }
}

/// A table sorted by row without neighbouring duplicates, its rows carrying
/// full digests, is strictly sorted by row.
proof fn lemma_row_strictly_sorted(t: Seq<EntryModel>)
    requires
        sorted_by_row(t),
        adjacent_distinct(t),
        forall|i: int| 0 <= i < t.len() ==> full_row(#[trigger] t[i]),
    ensures
        strictly_sorted_by_row(t),
{
    assert forall|i: int, j: int| 0 <= i < j < t.len() implies row_before(#[trigger] t[i], #[trigger] t[j]) by {
        lemma_row_strict_step(t, i, j);
    }
}

proof fn lemma_row_strict_step(t: Seq<EntryModel>, i: int, j: int)
    requires
        sorted_by_row(t),
        adjacent_distinct(t),
        forall|k: int| 0 <= k < t.len() ==> full_row(#[trigger] t[k]),
        0 <= i < j < t.len(),
    ensures
        row_before(t[i], t[j]),
    decreases j - i,
{
    assert(t[i] != t[i + 1]);
    assert(full_row(t[i]) && full_row(t[i + 1]));
    lemma_row_before_total(t[i], t[i + 1]);
    assert(!row_before(t[i + 1], t[i]));
    if i + 1 < j {
        lemma_row_strict_step(t, i + 1, j);
        lemma_row_before_order(t[i], t[i + 1], t[j]);
    }
}

/// What `build` leaves: rows sorted by identifier, then owner scope, then
/// name, no neighbouring duplicates, exactly the rows the declarations
/// produce against `prior`.
pub open spec fn built_from(prior: Seq<EntryModel>, d: Seq<DeclaredModel>, t: Seq<EntryModel>) -> bool {
    &&& sorted_by_row(t)
    &&& adjacent_distinct(t)
    &&& forall|i: int| 0 <= i < t.len() ==> exists|j: int| 0 <= j < d.len() && #[trigger] t[i] == row_for(prior, d[j])
    &&& forall|j: int| 0 <= j < d.len() ==> holds_row(t, #[trigger] row_for(prior, d[j]))
}

/// An identifier's hexadecimal text is 32 lowercase hexadecimal digits, each
/// pair of them reads back as the matching byte of its digest, and the whole
/// text parses back to the digest.
pub proof fn law_identifier_hex_reads_back(id: &NominalIdentifier)
    ensures
        crate::text::hex_seq(id@.digest).len() == 32,
        forall|k: int|
            0 <= k < 32 ==> (#[trigger] crate::text::lower_hex_value(crate::text::hex_seq(id@.digest)[k])) is Some,
        forall|i: int|
            0 <= i < 16 ==> #[trigger] crate::identity::hex_pair_value(
                crate::text::hex_seq(id@.digest)[2 * i],
                crate::text::hex_seq(id@.digest)[2 * i + 1],
            ) == Some(id@.digest[i]),
        hex_digest_ok(crate::text::hex_seq(id@.digest)),
        hex_digest_bytes(crate::text::hex_seq(id@.digest)) == id@.digest,
{
    assert(id@.digest.len() == 16);
    crate::identity::law_hex_text_reads_back(id@.digest);
    let s = crate::text::hex_seq(id@.digest);
    assert(hex_digest_bytes(s) =~= id@.digest);
}

/// The identifier associated with a kind carries that kind.
proof fn lemma_associated_kind(t: Seq<EntryModel>, kind: DeclarationKind, owner: Option<IdModel>, name: Seq<char>)
    ensures
        associated(t, kind, owner, name).kind == kind,
{
    crate::seqs::lemma_first_index(t, row_matches(kind, owner, name));
}

/// A declared top-level name resolves, in the table built from the
/// declarations, to the identifier its declaration was answered with.
pub proof fn law_declared_name_resolves(prior: Seq<EntryModel>, ds: Seq<DeclaredModel>, t: Seq<EntryModel>, j: int)
    requires
        built_from(prior, ds, t),
        0 <= j < ds.len(),
        ds[j].owner is None,
    ensures
        lookup(t, ds[j].kind, None, ds[j].name) == Some(associated(prior, ds[j].kind, None, ds[j].name)),
{
    let d = ds[j];
    let row = row_for(prior, d);
    let p = row_matches(d.kind, None, d.name);
    assert(holds_row(t, row));
    let m = choose|m: int| 0 <= m < t.len() && #[trigger] t[m] == row;
    lemma_associated_kind(prior, d.kind, None, d.name);
    assert(p(t[m]));
    crate::seqs::lemma_first_index(t, p);
    let f = first_index(t, p)->Some_0;
    assert(p(t[f]));
    let k = choose|k: int| 0 <= k < ds.len() && #[trigger] t[f] == row_for(prior, ds[k]);
    lemma_associated_kind(prior, ds[k].kind, ds[k].owner, ds[k].name);
    assert(ds[k].kind == d.kind && ds[k].owner == d.owner && ds[k].name == d.name);
}

/// Every identifier a table holds, and every owner it names, carries a full
/// 16-byte digest.
pub proof fn lemma_table_digests(t: &NameTable)
    ensures
        full_digests(t@),
        forall|i: int| 0 <= i < t@.len() ==> full_row(#[trigger] t@[i]),
{
    assert forall|i: int| 0 <= i < t@.len() implies (#[trigger] t@[i]).identifier.digest.len() == 16 && full_row(
        t@[i],
    ) by {
        assert(t@[i] == t.entries@[i]@);
    }
}

/// Declaration order does not decide a built table: building the same set of
/// declarations in any order against the same prior gives the same table.
pub proof fn law_build_order_independent(
    prior: Seq<EntryModel>,
    d1: Seq<DeclaredModel>,
    d2: Seq<DeclaredModel>,
    t1: Seq<EntryModel>,
    t2: Seq<EntryModel>,
)
    requires
        built_from(prior, d1, t1),
        built_from(prior, d2, t2),
        forall|x: DeclaredModel| d1.contains(x) <==> d2.contains(x),
        forall|i: int| 0 <= i < t1.len() ==> full_row(#[trigger] t1[i]),
        forall|i: int| 0 <= i < t2.len() ==> full_row(#[trigger] t2[i]),
    ensures
        t1 == t2,
{
    assert forall|x: EntryModel| holds_row(t1, x) <==> holds_row(t2, x) by {
        if holds_row(t1, x) {
            let i = choose|i: int| 0 <= i < t1.len() && #[trigger] t1[i] == x;
            let j = choose|j: int| 0 <= j < d1.len() && #[trigger] t1[i] == row_for(prior, d1[j]);
            assert(d1.contains(d1[j]));
            let k = choose|k: int| 0 <= k < d2.len() && d2[k] == d1[j];
            assert(holds_row(t2, row_for(prior, d2[k])));
        }
        if holds_row(t2, x) {
            let i = choose|i: int| 0 <= i < t2.len() && #[trigger] t2[i] == x;
            let j = choose|j: int| 0 <= j < d2.len() && #[trigger] t2[i] == row_for(prior, d2[j]);
            assert(d2.contains(d2[j]));
            let k = choose|k: int| 0 <= k < d1.len() && d1[k] == d2[j];
            assert(holds_row(t1, row_for(prior, d1[k])));
        }
    }
    lemma_row_strictly_sorted(t1);
    lemma_row_strictly_sorted(t2);
    lemma_row_sorted_unique(t1, t2);
}

} // verus!
