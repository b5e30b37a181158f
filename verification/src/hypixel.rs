//! Player identities and the data of the Hypixel and Mojang web services: UUIDs, the
//! requests that are sent, and the records that come back.

use vstd::prelude::*;

use crate::text::{
    ascii_lower, chars_of, decimal, hex2, hex_char, lower_char, push_char, push_hex2,
    push_str, without_char, remove_char, lemma_without_absent, lemma_without_concat,
};

verus! {

/// Hypixel API entry point.
pub const ENTRY_POINT: &'static str = "https://api.hypixel.net";

/// Mojang API entry point.
pub const MOJANG_ENTRY_POINT: &'static str = "https://api.mojang.com";

/// Errors of this module, each outside failure carried by its message.
#[derive(Clone, Debug, PartialEq, Eq)]
pub enum ApiError {
    /// The HTTP request failed.
    Http(String),
    /// A UUID could not be read.
    InvalidUUID,
    /// The API key was refused.
    NotAuthenticated,
    /// A message from the deserializer.
    Message(String),
    /// The body could not be deserialized.
    Deser(String),
}

impl ApiError {
    /// The text shown for the error.
    pub fn message(&self) -> (s: String)
        ensures
            s@ == match self {
                ApiError::Http(e) => "http error: "@ + e@,
                ApiError::InvalidUUID => "invalid UUID"@,
                ApiError::NotAuthenticated => "not authenticated"@,
                ApiError::Deser(e) => "deserialization error: "@ + e@,
                ApiError::Message(m) => m@,
            },
    {
        match self {
            ApiError::Http(e) => {
                let mut s = String::from_str("http error: ");
                push_str(&mut s, e.as_str());
                s
            },
            ApiError::InvalidUUID => String::from_str("invalid UUID"),
            ApiError::NotAuthenticated => String::from_str("not authenticated"),
            ApiError::Deser(e) => {
                let mut s = String::from_str("deserialization error: ");
                push_str(&mut s, e.as_str());
                s
            },
            ApiError::Message(m) => m.clone(),
        }
    }
}

/// A player UUID or API key: sixteen bytes.
#[derive(Clone, Copy, Debug, PartialEq, Eq)]
pub struct UUID(pub [u8; 16]);

/// The value of a hexadecimal digit of either case.
pub open spec fn hex_value(c: char) -> Option<nat> {
    if '0' <= c && c <= '9' {
        Some(((c as u32) - ('0' as u32)) as nat)
    } else if 'a' <= c && c <= 'f' {
        Some(((c as u32) - ('a' as u32) + 10) as nat)
    } else if 'A' <= c && c <= 'F' {
        Some(((c as u32) - ('A' as u32) + 10) as nat)
    } else {
        None
    }
}

/// The number of bytes of a character in UTF-8.
pub open spec fn utf8_len(c: char) -> nat {
    if (c as u32) < 0x80 {
        1
    } else if (c as u32) < 0x800 {
        2
    } else if (c as u32) < 0x10000 {
        3
    } else {
        4
    }
}

/// The number of bytes of a string in UTF-8 (`str::len`).
pub open spec fn byte_len(s: Seq<char>) -> nat
    decreases s.len(),
{
    if s.len() == 0 {
        0
    } else {
        byte_len(s.drop_last()) + utf8_len(s.last())
    }
}

/// All characters are ASCII.
pub open spec fn all_ascii(s: Seq<char>) -> bool {
    forall|i: int| 0 <= i < s.len() ==> ((#[trigger] s[i]) as u32) < 0x80
}

/// The hexadecimal digits of a UUID text: the text with every `-` taken out.
pub open spec fn uuid_digits(s: Seq<char>) -> Seq<char> {
    without_char(s, '-')
}

/// The sixteen bytes that 32 hexadecimal digits stand for, two digits per byte.
pub open spec fn bytes_of_digits(d: Seq<char>) -> Seq<u8> {
    Seq::new(16, |i: int| (hex_value(d[2 * i])->0 * 16 + hex_value(d[2 * i + 1])->0) as u8)
}

/// The UUID a text stands for: after removing every `-`, exactly 32 bytes that are all
/// hexadecimal digits.
pub open spec fn parsed_uuid(s: Seq<char>) -> Option<Seq<u8>> {
    let d = uuid_digits(s);
    if byte_len(d) == 32 && d.len() == 32 && forall|i: int|
        0 <= i < 32 ==> (#[trigger] hex_value(d[i])) is Some {
        Some(bytes_of_digits(d))
    } else {
        None
    }
}

/// A UUID as text: two lower-case hexadecimal digits per byte, with a `-` after bytes
/// 3, 5, 7 and 9 in the hyphenated form.
pub open spec fn uuid_text(b: Seq<u8>, hyphenated: bool) -> Seq<char>
    decreases b.len(),
{
    if b.len() == 0 {
        seq![]
    } else {
        let i = b.len() - 1;
        uuid_text(b.drop_last(), hyphenated) + hex2(b.last()) + if hyphenated && (i == 3 || i
            == 5 || i == 7 || i == 9) {
            seq!['-']
        } else {
            seq![]
        }
    }
}

proof fn lemma_byte_len_ge(s: Seq<char>)
    ensures
        byte_len(s) >= s.len(),
        all_ascii(s) ==> byte_len(s) == s.len(),
    decreases s.len(),
{
    if s.len() > 0 {
        lemma_byte_len_ge(s.drop_last());
        if all_ascii(s) {
            assert(all_ascii(s.drop_last()));
            assert((s[s.len() - 1] as u32) < 0x80);
        }
    }
}

fn all_ascii_chars(v: &[char]) -> (r: bool)
    ensures
        r == all_ascii(v@),
{
    let mut k: usize = 0;
    while k < v.len()
        invariant
            k <= v.len(),
            forall|j: int| 0 <= j < k ==> ((#[trigger] v@[j]) as u32) < 0x80,
        decreases v.len() - k,
    {
        if (v[k] as u32) >= 0x80 {
            return false;
        }
        k = k + 1;
    }
    true
}

fn hex_value_of(c: char) -> (r: Option<u8>)
    ensures
        r matches Some(v) ==> hex_value(c) == Some(v as nat),
        r is None ==> hex_value(c) is None,
{
    if '0' <= c && c <= '9' {
        Some((c as u8) - 48)
    } else if 'a' <= c && c <= 'f' {
        Some((c as u8) - 87)
    } else if 'A' <= c && c <= 'F' {
        Some((c as u8) - 55)
    } else {
        None
    }
}

impl UUID {
    /// Reads a UUID: every `-` is dropped, what is left must be 32 hexadecimal digits.
    pub fn from_str(s: &str) -> (res: Result<UUID, ApiError>)
        ensures
            match parsed_uuid(s@) {
                Some(b) => res matches Ok(u) && u.0@ == b,
                None => res == Err::<UUID, ApiError>(ApiError::InvalidUUID),
            },
    {
        let all = chars_of(s);
        let d = remove_char(all.as_slice(), '-');
        let ascii = all_ascii_chars(d.as_slice());
        assert(d@ == uuid_digits(s@));
        proof {
            lemma_byte_len_ge(d@);
        }
        if d.len() != 32 || !ascii {
            proof {
                if d@.len() == 32 && !all_ascii(d@) {
                    let k = choose|k: int| 0 <= k < d@.len() && !((d@[k] as u32) < 0x80);
                    assert(hex_value(d@[k]) is None);
                }
            }
            return Err(ApiError::InvalidUUID);
        }
        let mut bytes: [u8; 16] = [0u8; 16];
        let mut i: usize = 0;
        while i < 16
            invariant
                d@.len() == 32,
                d@ == uuid_digits(s@),
                i <= 16,
                forall|j: int| 0 <= j < 2 * i ==> (#[trigger] hex_value(d@[j])) is Some,
                forall|j: int| 0 <= j < i ==> bytes@[j] == bytes_of_digits(d@)[j],
            decreases 16 - i,
        {
            let hi = hex_value_of(d[2 * i]);
            let lo = hex_value_of(d[2 * i + 1]);
            if hi.is_none() || lo.is_none() {
                assert(hex_value(d@[2 * i as int]) is None || hex_value(d@[2 * i + 1]) is None);
                return Err(ApiError::InvalidUUID);
            }
            let v: u8 = hi.unwrap() * 16 + lo.unwrap();
            bytes[i] = v;
            i = i + 1;
        }
        assert(bytes@ =~= bytes_of_digits(d@));
        let u = UUID(bytes);
        assert(u.0@ == bytes@);
        Ok(u)
    }

    /// Appends the UUID as text, hyphenated or not.
    fn push_text(&self, s: &mut String, hyphenated: bool)
        ensures
            final(s)@ == old(s)@ + uuid_text(self.0@, hyphenated),
    {
        let ghost start = s@;
        let mut i: usize = 0;
        while i < 16
            invariant
                i <= 16,
                s@ == start + uuid_text(self.0@.take(i as int), hyphenated),
            decreases 16 - i,
        {
            push_hex2(s, self.0[i]);
            if hyphenated && (i == 3 || i == 5 || i == 7 || i == 9) {
                push_char(s, '-');
            }
            assert(self.0@.take(i + 1).drop_last() =~= self.0@.take(i as int));
            i = i + 1;
            assert(s@ =~= start + uuid_text(self.0@.take(i as int), hyphenated));
        }
        assert(self.0@.take(16) =~= self.0@);
    }

    /// The UUID as 32 lower-case hexadecimal digits (the plain `{}` form).
    pub fn display(&self) -> (s: String)
        ensures
            s@ == uuid_text(self.0@, false),
    {
        let mut s = String::new();
        self.push_text(&mut s, false);
        assert(s@ =~= uuid_text(self.0@, false));
        s
    }

    /// The UUID in hyphenated form, `8-4-4-4-12` digits (the `{:#}` form).
    pub fn display_alternate(&self) -> (s: String)
        ensures
            s@ == uuid_text(self.0@, true),
    {
        let mut s = String::new();
        self.push_text(&mut s, true);
        assert(s@ =~= uuid_text(self.0@, true));
        s
    }
}

/// Facts on the shape of a UUID text.
proof fn lemma_uuid_text_shape(b: Seq<u8>)
    ensures
        uuid_text(b, false).len() == 2 * b.len(),
        forall|i: int|
            0 <= i < b.len() ==> #[trigger] uuid_text(b, false)[2 * i] == hex_char(
                (b[i] / 16) as nat,
            ),
        forall|i: int|
            0 <= i < b.len() ==> #[trigger] uuid_text(b, false)[2 * i + 1] == hex_char(
                (b[i] % 16) as nat,
            ),
    decreases b.len(),
{
    if b.len() > 0 {
        let p = b.drop_last();
        lemma_uuid_text_shape(p);
        let t = uuid_text(b, false);
        let h = hex2(b.last());
        assert(t =~= uuid_text(p, false) + h);
        assert forall|k: int| 0 <= k < b.len() implies #[trigger] t[2 * k] == hex_char(
            (b[k] / 16) as nat,
        ) by {
            if k < b.len() - 1 {
                assert(p[k] == b[k]);
                assert(t[2 * k] == uuid_text(p, false)[2 * k]);
            }
        }
        assert forall|k: int| 0 <= k < b.len() implies #[trigger] t[2 * k + 1] == hex_char(
            (b[k] % 16) as nat,
        ) by {
            if k < b.len() - 1 {
                assert(p[k] == b[k]);
                assert(t[2 * k + 1] == uuid_text(p, false)[2 * k + 1]);
            }
        }
    }
}

/// The hyphenated text of a UUID is its plain text with dashes added.
proof fn lemma_uuid_text_dashes(b: Seq<u8>)
    ensures
        without_char(uuid_text(b, true), '-') == uuid_text(b, false),
    decreases b.len(),
{
    if b.len() > 0 {
        let p = b.drop_last();
        lemma_uuid_text_dashes(p);
        let i = b.len() - 1;
        let h = hex2(b.last());
        let tail: Seq<char> = if i == 3 || i == 5 || i == 7 || i == 9 {
            seq!['-']
        } else {
            seq![]
        };
        lemma_hex_char_value((b.last() / 16) as nat);
        lemma_hex_char_value((b.last() % 16) as nat);
        lemma_without_absent(h, '-');
        assert(without_char(tail, '-') =~= Seq::<char>::empty()) by {
            if tail.len() == 1 {
                assert(tail.drop_last() =~= Seq::<char>::empty());
                assert(without_char(tail.drop_last(), '-') =~= Seq::<char>::empty());
            }
        }
        lemma_without_concat(uuid_text(p, true), h, '-');
        lemma_without_concat(uuid_text(p, true) + h, tail, '-');
        assert(uuid_text(b, true) == uuid_text(p, true) + h + tail);
        assert(uuid_text(b, false) =~= uuid_text(p, false) + h);
        assert(without_char(uuid_text(b, true), '-') =~= uuid_text(p, false) + h);
    }
}

/// Reading back a UUID's text, in either form, gives the same UUID.
pub proof fn lemma_uuid_text_roundtrip(b: Seq<u8>, hyphenated: bool)
    requires
        b.len() == 16,
    ensures
        parsed_uuid(uuid_text(b, hyphenated)) == Some(b),
{
    lemma_uuid_text_shape(b);
    let plain = uuid_text(b, false);
    assert forall|i: int| 0 <= i < 32 implies hex_value(#[trigger] plain[i]) is Some
        && (plain[i] as u32) < 0x80 && plain[i] != '-' by {
        let k = i / 2;
        assert(0 <= k < 16);
        if i % 2 == 0 {
            assert(i == 2 * k);
            lemma_hex_char_value((b[k] / 16) as nat);
        } else {
            assert(i == 2 * k + 1);
            lemma_hex_char_value((b[k] % 16) as nat);
        }
    }
    if hyphenated {
        lemma_uuid_text_dashes(b);
    } else {
        lemma_without_absent(plain, '-');
    }
    assert(uuid_digits(uuid_text(b, hyphenated)) == plain);
    assert(all_ascii(plain));
    lemma_byte_len_ge(plain);
    assert forall|k: int| 0 <= k < 16 implies bytes_of_digits(plain)[k] == b[k] by {
        lemma_hex_char_value((b[k] / 16) as nat);
        lemma_hex_char_value((b[k] % 16) as nat);
        assert(plain[2 * k] == hex_char((b[k] / 16) as nat));
        assert(plain[2 * k + 1] == hex_char((b[k] % 16) as nat));
    }
    assert(bytes_of_digits(plain) =~= b);
}

proof fn lemma_hex_char_value(d: nat)
    requires
        d < 16,
    ensures
        hex_value(hex_char(d)) == Some(d),
        (hex_char(d) as u32) < 0x80,
        hex_char(d) != '-',
{
}

/// Showing a UUID that was read gives its digits in lower case, without the `-`.
pub proof fn lemma_uuid_read_then_shown(s: Seq<char>)
    requires
        parsed_uuid(s) is Some,
    ensures
        uuid_text(parsed_uuid(s)->0, false) == ascii_lower(uuid_digits(s)),
{
    let d = uuid_digits(s);
    let b = parsed_uuid(s)->0;
    lemma_uuid_text_shape(b);
    let t = uuid_text(b, false);
    assert forall|i: int| 0 <= i < 32 implies t[i] == lower_char(d[i]) by {
        let k = i / 2;
        assert(hex_value(d[2 * k]) is Some);
        assert(hex_value(d[2 * k + 1]) is Some);
        let hi = hex_value(d[2 * k])->0;
        let lo = hex_value(d[2 * k + 1])->0;
        assert(hi < 16 && lo < 16);
        assert(b[k] == (hi * 16 + lo) as u8);
        assert((hi * 16 + lo) / 16 == hi && (hi * 16 + lo) % 16 == lo) by (nonlinear_arith)
            requires
                hi < 16,
                lo < 16,
        ;
        if i % 2 == 0 {
            assert(i == 2 * k);
        } else {
            assert(i == 2 * k + 1);
        }
    }
    assert(t =~= ascii_lower(d));
}

/// A player, known by UUID only.
pub struct Player(pub UUID);

/// A player record from Mojang's API.
pub struct MojangPlayer {
    pub id: String,
}

/// Mojang's profile address for a player name.
pub open spec fn profile_url(name: Seq<char>) -> Seq<char> {
    MOJANG_ENTRY_POINT@ + "/users/profiles/minecraft/"@ + name
}

impl Player {
    /// The address that is asked for a player's Mojang profile.
    pub fn profile_url(name: &str) -> (s: String)
        ensures
            s@ == profile_url(name@),
    {
        let mut s = String::from_str(MOJANG_ENTRY_POINT);
        push_str(&mut s, "/users/profiles/minecraft/");
        push_str(&mut s, name);
        s
    }

    /// The player that Mojang's answer names.
    pub fn from_mojang(json: &MojangPlayer) -> (res: Result<Player, ApiError>)
        ensures
            match parsed_uuid(json.id@) {
                Some(b) => res matches Ok(p) && p.0.0@ == b,
                None => res == Err::<Player, ApiError>(ApiError::InvalidUUID),
            },
    {
        let uuid = UUID::from_str(json.id.as_str());
        match uuid {
            Ok(u) => Ok(Player(u)),
            Err(e) => Err(e),
        }
    }
}

/// A player data request (GET /player): the API key and the player.
pub struct PlayerDataRequest(pub UUID, pub Player);

impl PlayerDataRequest {
    /// The address of the request.
    pub fn url(&self) -> (s: String)
        ensures
            s@ == ENTRY_POINT@ + "/player"@,
    {
        let mut s = String::from_str(ENTRY_POINT);
        push_str(&mut s, "/player");
        s
    }

    /// The value of the `API-Key` header: the key in plain form.
    pub fn api_key(&self) -> (s: String)
        ensures
            s@ == uuid_text(self.0.0@, false),
    {
        self.0.display()
    }

    /// The value of the `uuid` query parameter: the player's UUID in plain form.
    pub fn uuid_query(&self) -> (s: String)
        ensures
            s@ == uuid_text(self.1.0.0@, false),
    {
        self.1.0.display()
    }
}

/// A player's moderation rank.
#[derive(Clone, Copy, Debug, PartialEq, Eq, Structural)]
#[non_exhaustive]
pub enum PlayerRank {
    Admin,
    Moderator,
    Helper,
    Normal,
}

/// A player's package rank.
#[derive(Clone, Copy, Debug, PartialEq, Eq, Structural)]
pub enum PackageRank {
    MvpPlus,
    Mvp,
    VipPlus,
    Vip,
    /// No package rank (`NONE` in the API).
    NoRank,
}

/// A player's monthly package rank.
#[derive(Clone, Copy, Debug, PartialEq, Eq, Structural)]
pub enum MonthlyPackageRank {
    Superstar,
    /// No monthly rank (`NONE` in the API).
    NoRank,
}

/// Player data from a [`PlayerDataRequest`].
pub struct PlayerData {
    /// Player's UUID
    pub uuid: String,
    /// Player's name on Hypixel
    pub displayname: Option<String>,
    /// Player's moderation rank
    pub rank: Option<PlayerRank>,
    /// Player's package rank (e.g. MVP)
    pub package_rank: Option<PackageRank>,
    /// Player's new package rank (e.g. MVP)
    pub new_package_rank: Option<PackageRank>,
    /// Player's monthly package rank (e.g. SUPERSTAR)
    pub monthly_package_rank: Option<MonthlyPackageRank>,
    /// First time on the server for the player
    pub first_login: Option<u64>,
    /// Last login time on the server for the player
    pub last_login: Option<u64>,
    /// Last logout time on the server for the player
    pub last_logout: Option<u64>,
}

/// Player data response from a [`PlayerDataRequest`].
pub struct PlayerDataResp {
    pub success: bool,
    pub player: PlayerData,
}

impl PlayerData {
    /// The last login time shown to users: the value, or 0 when unknown.
    pub fn last_login_or_zero(&self) -> (r: u64)
        ensures
            r == match self.last_login {
                Some(t) => t,
                None => 0,
            },
    {
        match self.last_login {
            Some(t) => t,
            None => 0,
        }
    }

    /// The last logout time shown to users: the value, or 0 when unknown.
    pub fn last_logout_or_zero(&self) -> (r: u64)
        ensures
            r == match self.last_logout {
                Some(t) => t,
                None => 0,
            },
    {
        match self.last_logout {
            Some(t) => t,
            None => 0,
        }
    }
}

} // verus!
