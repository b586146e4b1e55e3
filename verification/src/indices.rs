//! The indices of configured modes, characters and chat channels: each key once,
//! each with an id derived from a hash of its key.

use vstd::prelude::*;
use crate::{IndexId, CharacterId};
use crate::error::{SolarError, ErrNoun};
use crate::log_kind::{ChatLogKind, NamedLog, IndexedLog, chat_log_kind_of};
use crate::config::CharacterConfig;
use crate::text::str_eq;

verus! {

/// What `xxh3_64` gives for the UTF-8 bytes of `s`.
pub uninterp spec fn xxh3_str(s: Seq<char>) -> u64;

/// Calls `xxhash_rust::xxh3::xxh3_64` on the UTF-8 bytes of `s`. Trusted: the result
/// is `xxh3_str` of the characters of `s`, a function of them alone.
#[verifier::external_body]
fn xxh3_of(s: &str) -> (r: u64)
    ensures
        r == xxh3_str(s@),
{
    xxhash_rust::xxh3::xxh3_64(s.as_bytes())
}

/// An entry of an index: an id and the key it is found by.
pub trait Idx {
    spec fn spec_id(&self) -> IndexId;

    spec fn spec_key(&self) -> Seq<char>;

    fn id(&self) -> (r: IndexId)
        ensures
            r == self.spec_id(),
    ;

    fn key(&self) -> (r: &str)
        ensures
            r@ == self.spec_key(),
    ;
}

/// Data that is indexed by a key of its own.
pub trait IndexKey {
    spec fn spec_index_key(&self) -> Seq<char>;

    fn index_key(&self) -> (r: &str)
        ensures
            r@ == self.spec_index_key(),
    ;
}

/// The first position below `n` whose entry has the key `key`.
pub open spec fn key_index_below<T: Idx>(s: Seq<T>, key: Seq<char>, n: int) -> Option<int>
    decreases n,
{
    if n <= 0 {
        None
    } else {
        match key_index_below(s, key, n - 1) {
            Some(i) => Some(i),
            None => if s[n - 1].spec_key() == key {
                Some(n - 1)
            } else {
                None
            },
        }
    }
}

/// The position of the first entry with the key `key`.
pub open spec fn key_index<T: Idx>(s: Seq<T>, key: Seq<char>) -> Option<int> {
    key_index_below(s, key, s.len() as int)
}

proof fn lemma_key_index_found<T: Idx>(s: Seq<T>, key: Seq<char>, m: int, n: int, i: int)
    requires
        key_index_below(s, key, m) == Some(i),
        m <= n,
    ensures
        key_index_below(s, key, n) == Some(i),
    decreases n - m,
{
    if n > m {
        lemma_key_index_found(s, key, m, n - 1, i);
    }
}

/// A position found below `n` holds the key, and where none is found no entry
/// below `n` holds it.
pub proof fn lemma_key_index_bounds<T: Idx>(s: Seq<T>, key: Seq<char>, n: int)
    ensures
        key_index_below(s, key, n) matches Some(i) ==> 0 <= i < n && s[i].spec_key() == key,
        key_index_below(s, key, n) is None ==> forall|j: int|
            0 <= j < n ==> #[trigger] s[j].spec_key() != key,
    decreases n,
{
    if n > 0 {
        lemma_key_index_bounds(s, key, n - 1);
    }
}

/// The position of the first entry of `v` with the key `key`.
pub fn find_position<T: Idx>(v: &Vec<T>, key: &str) -> (r: Option<usize>)
    ensures
        match r {
            Some(i) => key_index(v@, key@) == Some(i as int) && i < v@.len(),
            None => key_index(v@, key@) is None,
        },
{
    let mut i: usize = 0;
    while i < v.len()
        invariant
            i <= v.len(),
            key_index_below(v@, key@, i as int) is None,
        decreases v.len() - i,
    {
        if str_eq(v[i].key(), key) {
            proof {
                lemma_key_index_found(v@, key@, i as int + 1, v@.len() as int, i as int);
            }
            return Some(i);
        }
        i = i + 1;
    }
    None
}

/// The views of a sequence of strings.
pub open spec fn str_views(v: Seq<String>) -> Seq<Seq<char>> {
    v.map_values(|s: String| s@)
}

/// Whether another position of `s` holds what position `i` holds.
pub open spec fn has_twin(s: Seq<Seq<char>>, i: int) -> bool {
    exists|j: int| 0 <= j < s.len() && j != i && #[trigger] s[j] == s[i]
}

/// The first position below `n` whose item occurs twice in `s`.
pub open spec fn first_twin_below(s: Seq<Seq<char>>, n: int) -> Option<int>
    decreases n,
{
    if n <= 0 {
        None
    } else {
        match first_twin_below(s, n - 1) {
            Some(i) => Some(i),
            None => if has_twin(s, n - 1) {
                Some(n - 1)
            } else {
                None
            },
        }
    }
}

/// The first position whose item occurs twice in `s`.
pub open spec fn first_twin(s: Seq<Seq<char>>) -> Option<int> {
    first_twin_below(s, s.len() as int)
}

proof fn lemma_first_twin_found(s: Seq<Seq<char>>, m: int, n: int, i: int)
    requires
        first_twin_below(s, m) == Some(i),
        m <= n,
    ensures
        first_twin_below(s, n) == Some(i),
    decreases n - m,
{
    if n > m {
        lemma_first_twin_found(s, m, n - 1, i);
    }
}

/// Whether item `i` of `s` occurs at another position.
fn twin_at(s: &Vec<Vec<char>>, i: usize) -> (r: bool)
    requires
        i < s.len(),
    ensures
        r == has_twin(crate::text::views(s@), i as int),
{
    let ghost sv = crate::text::views(s@);
    let mut j: usize = 0;
    while j < s.len()
        invariant
            i < s.len(),
            sv == crate::text::views(s@),
            j <= s.len(),
            forall|k: int| 0 <= k < j && k != i ==> sv[k] != sv[i as int],
        decreases s.len() - j,
    {
        if j != i && crate::text::chars_eq(&s[j], &s[i]) {
            assert(sv[j as int] == sv[i as int]);
            return true;
        }
        j = j + 1;
    }
    false
}

/// The position of the first item of `s` that occurs twice.
fn first_twin_position(s: &Vec<Vec<char>>) -> (r: Option<usize>)
    ensures
        match r {
            Some(i) => first_twin(crate::text::views(s@)) == Some(i as int) && i < s.len(),
            None => first_twin(crate::text::views(s@)) is None,
        },
{
    let ghost sv = crate::text::views(s@);
    let mut i: usize = 0;
    while i < s.len()
        invariant
            sv == crate::text::views(s@),
            sv.len() == s@.len(),
            i <= s.len(),
            first_twin_below(sv, i as int) is None,
        decreases s.len() - i,
    {
        if twin_at(s, i) {
            proof {
                lemma_first_twin_found(sv, i as int + 1, sv.len() as int, i as int);
            }
            return Some(i);
        }
        i = i + 1;
    }
    None
}

/// The characters of each string.
fn chars_of_all(v: &Vec<String>) -> (r: Vec<Vec<char>>)
    ensures
        crate::text::views(r@) == str_views(v@),
{
    let mut r: Vec<Vec<char>> = Vec::new();
    let mut i: usize = 0;
    while i < v.len()
        invariant
            i <= v.len(),
            r@.len() == i,
            crate::text::views(r@) == str_views(v@).take(i as int),
        decreases v.len() - i,
    {
        let ghost old_r = r@;
        let c = crate::text::chars_of(v[i].as_str());
        r.push(c);
        i = i + 1;
        assert forall|j: int| 0 <= j < i implies #[trigger] crate::text::views(r@)[j] == str_views(
            v@,
        ).take(i as int)[j] by {
            assert(crate::text::views(r@)[j] == r@[j]@);
            assert(str_views(v@)[j] == v@[j]@);
            if j < i - 1 {
                assert(r@[j] == old_r[j]);
                assert(crate::text::views(old_r)[j] == old_r[j]@);
                assert(crate::text::views(old_r)[j] == str_views(v@).take(i - 1)[j]);
            } else {
                assert(r@[j] == c);
            }
        }
        assert(crate::text::views(r@) =~= str_views(v@).take(i as int));
    }
    assert(str_views(v@).take(v.len() as int) =~= str_views(v@));
    r
}

/// The index of modes, characters and chat channels.
#[derive(Debug)]
pub struct Index {
    pub characters: CharacterIndex,
    pub modes: ModeIndex,
    pub channel_names: ChannelNameIndex,
}

impl Index {
    /// An index of the given parts.
    pub fn new(modes: ModeIndex, characters: CharacterIndex, channel_names: ChannelNameIndex) -> (r: Self)
        ensures
            r.modes == modes,
            r.characters == characters,
            r.channel_names == channel_names,
    {
        Index { modes, characters, channel_names }
    }

    /// The id of the key `s`: the `xxh3_64` hash of its UTF-8 bytes.
    pub fn hash_id(s: &str) -> (r: IndexId)
        ensures
            r == xxh3_str(s@),
    {
        xxh3_of(s)
    }

    /// The character index.
    pub fn characters(&self) -> (r: &CharacterIndex)
        ensures
            *r == self.characters,
    {
        &self.characters
    }

    /// The mode index.
    pub fn modes(&self) -> (r: &ModeIndex)
        ensures
            *r == self.modes,
    {
        &self.modes
    }

    /// The chat channel name index.
    pub fn chat_channels(&self) -> (r: &ChannelNameIndex)
        ensures
            *r == self.channel_names,
    {
        &self.channel_names
    }

    /// The chat channel name index, to add names to.
    pub fn chat_channels_mut(&mut self) -> (r: &mut ChannelNameIndex)
        ensures
            *r == old(self).channel_names,
            final(self).channel_names == *final(r),
            final(self).modes == old(self).modes,
            final(self).characters == old(self).characters,
    {
        &mut self.channel_names
    }

    /// `v` itself, unless an item occurs twice: then an error that names the first
    /// such item.
    pub fn no_duplicate(v: Vec<String>, noun: ErrNoun) -> (r: Result<Vec<String>, SolarError>)
        ensures
            match first_twin(str_views(v@)) {
                None => r matches Ok(w) && w@ == v@,
                Some(i) => r matches Err(SolarError::Duplicate { noun: n, item }) && n == noun
                    && item@ == v@[i]@,
            },
    {
        let cs = chars_of_all(&v);
        match first_twin_position(&cs) {
            Some(i) => {
                assert(crate::text::views(cs@)[i as int] == str_views(v@)[i as int]);
                Err(SolarError::duplicate(noun, v[i].as_str()))
            },
            None => Ok(v),
        }
    }

    /// Each item of `data` with its key, unless a key occurs twice: then an error
    /// that names the first such key.
    pub fn no_duplicate_data<'a, T: IndexKey>(data: &'a Vec<T>, noun: ErrNoun) -> (r: Result<
        Vec<(String, &'a T)>,
        SolarError,
    >)
        ensures
            match first_twin(data_keys(data@)) {
                None => r matches Ok(w) && w@.len() == data@.len() && forall|i: int|
                    0 <= i < w@.len() ==> (#[trigger] w@[i]).0@ == data@[i].spec_index_key()
                        && *w@[i].1 == data@[i],
                Some(i) => r matches Err(SolarError::Duplicate { noun: n, item }) && n == noun
                    && item@ == data@[i].spec_index_key(),
            },
    {
        let mut keys: Vec<Vec<char>> = Vec::new();
        let mut i: usize = 0;
        while i < data.len()
            invariant
                i <= data.len(),
                keys@.len() == i,
                crate::text::views(keys@) == data_keys(data@).take(i as int),
            decreases data.len() - i,
        {
            let ghost old_keys = keys@;
            keys.push(crate::text::chars_of(data[i].index_key()));
            i = i + 1;
            assert forall|j: int| 0 <= j < i implies #[trigger] crate::text::views(keys@)[j]
                == data_keys(data@).take(i as int)[j] by {
                assert(crate::text::views(keys@)[j] == keys@[j]@);
                assert(data_keys(data@)[j] == data@[j].spec_index_key());
                if j < i - 1 {
                    assert(keys@[j] == old_keys[j]);
                    assert(crate::text::views(old_keys)[j] == old_keys[j]@);
                    assert(crate::text::views(old_keys)[j] == data_keys(data@).take(i - 1)[j]);
                }
            }
            assert(crate::text::views(keys@) =~= data_keys(data@).take(i as int));
        }
        assert(data_keys(data@).take(data.len() as int) =~= data_keys(data@));
        match first_twin_position(&keys) {
            Some(k) => {
                assert(crate::text::views(keys@)[k as int] == data_keys(data@)[k as int]);
                Err(SolarError::duplicate(noun, data[k].index_key()))
            },
            None => {
                let mut out: Vec<(String, &'a T)> = Vec::new();
                let mut j: usize = 0;
                while j < data.len()
                    invariant
                        j <= data.len(),
                        out@.len() == j,
                        forall|k: int|
                            0 <= k < j ==> (#[trigger] out@[k]).0@ == data@[k].spec_index_key()
                                && *out@[k].1 == data@[k],
                    decreases data.len() - j,
                {
                    let key = data[j].index_key().to_owned();
                    out.push((key, &data[j]));
                    j = j + 1;
                }
                Ok(out)
            },
        }
    }
}

/// The keys of indexed data.
pub open spec fn data_keys<T: IndexKey>(s: Seq<T>) -> Seq<Seq<char>> {
    s.map_values(|t: T| t.spec_index_key())
}

/// The mode index of the names `names`: each with the hash of its name as its id.
pub open spec fn mode_index_of(names: Seq<String>) -> Seq<ModeIdx> {
    Seq::new(names.len(), |i: int| ModeIdx { id: xxh3_str(names[i]@), name: names[i] })
}

/// The channel name index of the names `names`: each with the hash of its name as
/// its id.
pub open spec fn channel_index_of(names: Seq<String>) -> Seq<ChannelNameIdx> {
    Seq::new(names.len(), |i: int| ChannelNameIdx { id: xxh3_str(names[i]@), name: names[i] })
}

/// The character index of the configured characters `cs`: each keyed by its alias,
/// with the hash of the alias as its id.
pub open spec fn character_index_of(cs: Seq<CharacterConfig>) -> Seq<CharacterIdx> {
    Seq::new(
        cs.len(),
        |i: int|
            CharacterIdx {
                id: xxh3_str(cs[i].alias@),
                alias: cs[i].alias,
                character_id: cs[i].id,
                name: cs[i].name,
            },
    )
}

/// A mode in the mode index.
#[derive(Debug, PartialEq, Eq)]
pub struct ModeIdx {
    pub id: IndexId,
    pub name: String,
}

impl ModeIdx {
    /// The mode's name.
    pub fn name(&self) -> (r: &str)
        ensures
            r@ == self.name@,
    {
        self.name.as_str()
    }
}

impl Idx for ModeIdx {
    open spec fn spec_id(&self) -> IndexId {
        self.id
    }

    open spec fn spec_key(&self) -> Seq<char> {
        self.name@
    }

    fn id(&self) -> (r: IndexId) {
        self.id
    }

    fn key(&self) -> (r: &str) {
        self.name()
    }
}

/// The modes, each name once.
#[derive(Debug, PartialEq, Eq)]
pub struct ModeIndex(pub Vec<ModeIdx>);

/// A character in the character index.
#[derive(Debug, PartialEq, Eq)]
pub struct CharacterIdx {
    pub id: IndexId,
    /// key, from config
    pub alias: String,
    /// from eve
    pub character_id: CharacterId,
    /// from eve
    pub name: String,
}

impl CharacterIdx {
    /// The character's alias, which the index is keyed by.
    pub fn alias(&self) -> (r: &str)
        ensures
            r@ == self.alias@,
    {
        self.alias.as_str()
    }

    /// The character's EVE id.
    pub fn character_id(&self) -> (r: CharacterId)
        ensures
            r == self.character_id,
    {
        self.character_id
    }

    /// The character's EVE name.
    pub fn character_name(&self) -> (r: &str)
        ensures
            r@ == self.name@,
    {
        self.name.as_str()
    }
}

impl Idx for CharacterIdx {
    open spec fn spec_id(&self) -> IndexId {
        self.id
    }

    open spec fn spec_key(&self) -> Seq<char> {
        self.alias@
    }

    fn id(&self) -> (r: IndexId) {
        self.id
    }

    fn key(&self) -> (r: &str) {
        self.alias()
    }
}

/// The characters, each alias once.
#[derive(Debug, PartialEq, Eq)]
pub struct CharacterIndex(pub Vec<CharacterIdx>);

/// A chat channel name in the channel name index.
#[derive(Debug, PartialEq, Eq)]
pub struct ChannelNameIdx {
    pub id: IndexId,
    pub name: String,
}

impl ChannelNameIdx {
    /// The channel's name.
    pub fn name(&self) -> (r: &str)
        ensures
            r@ == self.name@,
    {
        self.name.as_str()
    }
}

impl Idx for ChannelNameIdx {
    open spec fn spec_id(&self) -> IndexId {
        self.id
    }

    open spec fn spec_key(&self) -> Seq<char> {
        self.name@
    }

    fn id(&self) -> (r: IndexId) {
        self.id
    }

    fn key(&self) -> (r: &str) {
        self.name()
    }
}

/// The chat channel names, each once.
#[derive(Debug, PartialEq, Eq)]
pub struct ChannelNameIndex(pub Vec<ChannelNameIdx>);

/// A chat channel: its id, name and the kind of log its name stands for.
#[derive(Debug, PartialEq, Eq)]
pub struct ChatChannel {
    pub id: IndexId,
    pub name: String,
    pub kind: ChatLogKind,
}

impl ChatChannel {
    /// The channel's name.
    pub fn name(&self) -> (r: &str)
        ensures
            r@ == self.name@,
    {
        self.name.as_str()
    }
}

impl Idx for ChatChannel {
    open spec fn spec_id(&self) -> IndexId {
        self.id
    }

    open spec fn spec_key(&self) -> Seq<char> {
        self.name@
    }

    fn id(&self) -> (r: IndexId) {
        self.id
    }

    fn key(&self) -> (r: &str) {
        self.name()
    }
}

/// The chat channels, each name once.
#[derive(Debug, PartialEq, Eq)]
pub struct ChatChannels(pub Vec<ChatChannel>);


/// The first entry of `v` with the key `key`, or an error about `noun`.
pub fn find_in<'a, T: Idx>(v: &'a Vec<T>, key: &str, noun: ErrNoun) -> (r: Result<&'a T, SolarError>)
    ensures
        match key_index(v@, key@) {
            Some(i) => r matches Ok(x) && *x == v@[i],
            None => r matches Err(SolarError::NotFound { noun: n, key: k }) && n == noun && k@
                == key@,
        },
{
    match find_position(v, key) {
        Some(i) => Ok(&v[i]),
        None => Err(SolarError::not_found(noun, key)),
    }
}

/// The entry of `v` at the position `id`, or an error about `noun`.
pub fn get_in<'a, T: Idx>(v: &'a Vec<T>, id: IndexId, noun: ErrNoun) -> (r: Result<&'a T, SolarError>)
    ensures
        if (id as int) < v@.len() {
            r matches Ok(x) && *x == v@[id as int]
        } else {
            r matches Err(SolarError::NotFoundId { noun: n, id: i }) && n == noun && i == id
        },
{
    if id < v.len() as u64 {
        Ok(&v[id as usize])
    } else {
        Err(SolarError::NotFoundId { noun, id })
    }
}

/// The ids of the entries of `v`, in order.
pub fn ids_of<T: Idx>(v: &Vec<T>) -> (r: Vec<IndexId>)
    ensures
        r@.len() == v@.len(),
        forall|i: int| 0 <= i < v@.len() ==> r@[i] == (#[trigger] v@[i]).spec_id(),
{
    let mut r: Vec<IndexId> = Vec::new();
    let mut i: usize = 0;
    while i < v.len()
        invariant
            i <= v.len(),
            r@.len() == i,
            forall|k: int| 0 <= k < i ==> r@[k] == (#[trigger] v@[k]).spec_id(),
        decreases v.len() - i,
    {
        r.push(v[i].id());
        i = i + 1;
    }
    r
}

/// The keys of the entries of `v`, in order.
pub fn keys_of<'a, T: Idx>(v: &'a Vec<T>) -> (r: Vec<&'a str>)
    ensures
        r@.len() == v@.len(),
        forall|i: int| 0 <= i < v@.len() ==> r@[i]@ == (#[trigger] v@[i]).spec_key(),
{
    let mut r: Vec<&'a str> = Vec::new();
    let mut i: usize = 0;
    while i < v.len()
        invariant
            i <= v.len(),
            r@.len() == i,
            forall|k: int| 0 <= k < i ==> r@[k]@ == (#[trigger] v@[k]).spec_key(),
        decreases v.len() - i,
    {
        r.push(v[i].key());
        i = i + 1;
    }
    r
}

/// The first position below `n` of `a` whose key is also a key of `b`.
pub open spec fn shared_key_below<T: Idx>(a: Seq<T>, b: Seq<T>, n: int) -> Option<int>
    decreases n,
{
    if n <= 0 {
        None
    } else {
        match shared_key_below(a, b, n - 1) {
            Some(i) => Some(i),
            None => if key_index(b, a[n - 1].spec_key()) is Some {
                Some(n - 1)
            } else {
                None
            },
        }
    }
}

proof fn lemma_shared_key_found<T: Idx>(a: Seq<T>, b: Seq<T>, m: int, n: int, i: int)
    requires
        shared_key_below(a, b, m) == Some(i),
        m <= n,
    ensures
        shared_key_below(a, b, n) == Some(i),
    decreases n - m,
{
    if n > m {
        lemma_shared_key_found(a, b, m, n - 1, i);
    }
}

/// Appends the entries of `other` to `v`, unless a key of `v` is also a key of
/// `other`: then `v` stays as it is, and the error names the first such key of `v`.
pub fn extend_in<T: Idx>(v: &mut Vec<T>, other: Vec<T>, noun: ErrNoun) -> (r: Result<(), SolarError>)
    ensures
        match shared_key_below(old(v)@, other@, old(v)@.len() as int) {
            None => r is Ok && final(v)@ == old(v)@ + other@,
            Some(i) => r matches Err(SolarError::Duplicate { noun: n, item }) && n == noun && item@
                == old(v)@[i].spec_key() && final(v)@ == old(v)@,
        },
{
    let mut i: usize = 0;
    while i < v.len()
        invariant
            v@ == old(v)@,
            i <= v.len(),
            shared_key_below(v@, other@, i as int) is None,
        decreases v.len() - i,
    {
        if find_position(&other, v[i].key()).is_some() {
            proof {
                lemma_shared_key_found(v@, other@, i as int + 1, v@.len() as int, i as int);
            }
            return Err(SolarError::duplicate(noun, v[i].key()));
        }
        i = i + 1;
    }
    let mut other = other;
    v.append(&mut other);
    Ok(())
}

impl ModeIndex {
    /// The index of the modes `modes`, unless a name occurs twice.
    pub fn try_new(modes: Vec<String>) -> (r: Result<Self, SolarError>)
        ensures
            match first_twin(str_views(modes@)) {
                Some(i) => r matches Err(SolarError::Duplicate { noun, item }) && noun
                    == ErrNoun::Mode && item@ == modes@[i]@,
                None => r matches Ok(x) && x.0@ == mode_index_of(modes@),
            },
    {
        let ghost given = modes@;
        let modes = Index::no_duplicate(modes, ErrNoun::Mode)?;
        let mut out: Vec<ModeIdx> = Vec::new();
        let mut i: usize = 0;
        while i < modes.len()
            invariant
                i <= modes.len(),
                out@.len() == i,
                forall|k: int|
                    0 <= k < i ==> #[trigger] out@[k] == (ModeIdx {
                        id: xxh3_str(modes@[k]@),
                        name: modes@[k],
                    }),
            decreases modes.len() - i,
        {
            let name = modes[i].clone();
            out.push(ModeIdx { id: Index::hash_id(name.as_str()), name });
            i = i + 1;
        }
        assert(out@ =~= mode_index_of(given));
        Ok(ModeIndex(out))
    }

    /// The mode named `key`.
    pub fn find(&self, key: &str) -> (r: Result<&ModeIdx, SolarError>)
        ensures
            match key_index(self.0@, key@) {
                Some(i) => r matches Ok(x) && *x == self.0@[i],
                None => r matches Err(SolarError::NotFound { noun, key: k }) && noun
                    == ErrNoun::Mode && k@ == key@,
            },
    {
        find_in(&self.0, key, ErrNoun::Mode)
    }

    /// The mode at the position `id`.
    pub fn get(&self, id: IndexId) -> (r: Result<&ModeIdx, SolarError>)
        ensures
            if (id as int) < self.0@.len() {
                r matches Ok(x) && *x == self.0@[id as int]
            } else {
                r matches Err(SolarError::NotFoundId { noun, id: i }) && noun == ErrNoun::Mode
                    && i == id
            },
    {
        get_in(&self.0, id, ErrNoun::Mode)
    }
}

impl CharacterIndex {
    /// The index of the configured characters, keyed by alias, unless an alias
    /// occurs twice.
    pub fn try_from_cfg(characters: &Vec<CharacterConfig>) -> (r: Result<Self, SolarError>)
        ensures
            match first_twin(data_keys(characters@)) {
                Some(i) => r matches Err(SolarError::Duplicate { noun, item }) && noun
                    == ErrNoun::Mode && item@ == characters@[i].alias@,
                None => r matches Ok(x) && x.0@ == character_index_of(characters@),
            },
    {
        let pairs = Index::no_duplicate_data(characters, ErrNoun::Mode)?;
        let mut out: Vec<CharacterIdx> = Vec::new();
        let mut i: usize = 0;
        while i < pairs.len()
            invariant
                i <= pairs.len(),
                pairs@.len() == characters@.len(),
                forall|k: int|
                    0 <= k < pairs@.len() ==> (#[trigger] pairs@[k]).0@ == characters@[k].alias@
                        && *pairs@[k].1 == characters@[k],
                out@.len() == i,
                forall|k: int|
                    0 <= k < i ==> #[trigger] out@[k] == character_index_of(characters@)[k],
            decreases pairs.len() - i,
        {
            let character = pairs[i].1;
            let id = Index::hash_id(character.alias.as_str());
            out.push(
                CharacterIdx {
                    id,
                    alias: character.alias.clone(),
                    character_id: character.id,
                    name: character.name.clone(),
                },
            );
            i = i + 1;
        }
        assert(out@ =~= character_index_of(characters@));
        Ok(CharacterIndex(out))
    }

    /// The character with the alias `key`.
    pub fn find(&self, key: &str) -> (r: Result<&CharacterIdx, SolarError>)
        ensures
            match key_index(self.0@, key@) {
                Some(i) => r matches Ok(x) && *x == self.0@[i],
                None => r matches Err(SolarError::NotFound { noun, key: k }) && noun
                    == ErrNoun::Mode && k@ == key@,
            },
    {
        find_in(&self.0, key, ErrNoun::Mode)
    }

    /// The character at the position `id`.
    pub fn get(&self, id: IndexId) -> (r: Result<&CharacterIdx, SolarError>)
        ensures
            if (id as int) < self.0@.len() {
                r matches Ok(x) && *x == self.0@[id as int]
            } else {
                r matches Err(SolarError::NotFoundId { noun, id: i }) && noun == ErrNoun::Mode
                    && i == id
            },
    {
        get_in(&self.0, id, ErrNoun::Mode)
    }
}

impl ChannelNameIndex {
    /// The index of the channel names `channel_names`, unless a name occurs twice.
    pub fn try_new(channel_names: Vec<String>) -> (r: Result<Self, SolarError>)
        ensures
            match first_twin(str_views(channel_names@)) {
                Some(i) => r matches Err(SolarError::Duplicate { noun, item }) && noun
                    == ErrNoun::ChannelName && item@ == channel_names@[i]@,
                None => r matches Ok(x) && x.0@ == channel_index_of(channel_names@),
            },
    {
        let ghost given = channel_names@;
        let names = Index::no_duplicate(channel_names, ErrNoun::ChannelName)?;
        let mut out: Vec<ChannelNameIdx> = Vec::new();
        let mut i: usize = 0;
        while i < names.len()
            invariant
                i <= names.len(),
                out@.len() == i,
                forall|k: int|
                    0 <= k < i ==> #[trigger] out@[k] == (ChannelNameIdx {
                        id: xxh3_str(names@[k]@),
                        name: names@[k],
                    }),
            decreases names.len() - i,
        {
            let name = names[i].clone();
            out.push(ChannelNameIdx { id: Index::hash_id(name.as_str()), name });
            i = i + 1;
        }
        assert(out@ =~= channel_index_of(given));
        Ok(ChannelNameIndex(out))
    }

    /// The channel named `key`.
    pub fn find(&self, key: &str) -> (r: Result<&ChannelNameIdx, SolarError>)
        ensures
            match key_index(self.0@, key@) {
                Some(i) => r matches Ok(x) && *x == self.0@[i],
                None => r matches Err(SolarError::NotFound { noun, key: k }) && noun
                    == ErrNoun::ChannelName && k@ == key@,
            },
    {
        find_in(&self.0, key, ErrNoun::ChannelName)
    }

    /// The channel at the position `id`.
    pub fn get(&self, id: IndexId) -> (r: Result<&ChannelNameIdx, SolarError>)
        ensures
            if (id as int) < self.0@.len() {
                r matches Ok(x) && *x == self.0@[id as int]
            } else {
                r matches Err(SolarError::NotFoundId { noun, id: i }) && noun
                    == ErrNoun::ChannelName && i == id
            },
    {
        get_in(&self.0, id, ErrNoun::ChannelName)
    }

    /// The indexed form of a named log. A group channel that the index does not
    /// know yet is added to it, with the hash of its name as its id.
    pub fn index_named(&mut self, named: NamedLog) -> (r: IndexedLog)
        ensures
            match named {
                NamedLog::Game => r == IndexedLog::Game && *final(self) == *old(self),
                NamedLog::Local => r == IndexedLog::Local && *final(self) == *old(self),
                NamedLog::Alliance => r == IndexedLog::Alliance && *final(self) == *old(self),
                NamedLog::Corporation => r == IndexedLog::Corporation && *final(self) == *old(self),
                NamedLog::Fleet => r == IndexedLog::Fleet && *final(self) == *old(self),
                NamedLog::Group(name) => match key_index(old(self).0@, name@) {
                    Some(i) => r == IndexedLog::Group(old(self).0@[i].id) && *final(self) == *old(
                        self,
                    ),
                    None => r == IndexedLog::Group(xxh3_str(name@)) && final(self).0@ == old(
                        self,
                    ).0@.push(ChannelNameIdx { id: xxh3_str(name@), name }),
                },
            },
    {
        match named {
            NamedLog::Alliance => IndexedLog::Alliance,
            NamedLog::Corporation => IndexedLog::Corporation,
            NamedLog::Game => IndexedLog::Game,
            NamedLog::Local => IndexedLog::Local,
            NamedLog::Fleet => IndexedLog::Fleet,
            NamedLog::Group(name) => {
                let id = match find_position(&self.0, name.as_str()) {
                    Some(i) => self.0[i].id,
                    None => {
                        let id = Index::hash_id(name.as_str());
                        self.0.push(ChannelNameIdx { id, name });
                        id
                    },
                };
                IndexedLog::Group(id)
            },
        }
    }
}

impl ChatChannels {
    /// The chat channels named `channels`, each with the kind of log its name
    /// stands for, unless a name occurs twice.
    pub fn try_new(channels: Vec<String>) -> (r: Result<Self, SolarError>)
        ensures
            match first_twin(str_views(channels@)) {
                Some(i) => r matches Err(SolarError::Duplicate { noun, item }) && noun
                    == ErrNoun::ChatChannel && item@ == channels@[i]@,
                None => r matches Ok(x) && x.0@.len() == channels@.len() && forall|i: int|
                    0 <= i < channels@.len() ==> #[trigger] x.0@[i] == (ChatChannel {
                        id: xxh3_str(channels@[i]@),
                        name: channels@[i],
                        kind: chat_log_kind_of(channels@[i]@),
                    }),
            },
    {
        let names = Index::no_duplicate(channels, ErrNoun::ChatChannel)?;
        let mut out: Vec<ChatChannel> = Vec::new();
        let mut i: usize = 0;
        while i < names.len()
            invariant
                i <= names.len(),
                out@.len() == i,
                forall|k: int|
                    0 <= k < i ==> #[trigger] out@[k] == (ChatChannel {
                        id: xxh3_str(names@[k]@),
                        name: names@[k],
                        kind: chat_log_kind_of(names@[k]@),
                    }),
            decreases names.len() - i,
        {
            let name = names[i].clone();
            let kind = ChatLogKind::from_log_name(name.as_str());
            out.push(ChatChannel { kind, id: Index::hash_id(name.as_str()), name });
            i = i + 1;
        }
        Ok(ChatChannels(out))
    }

    /// The channel named `key`.
    pub fn find(&self, key: &str) -> (r: Result<&ChatChannel, SolarError>)
        ensures
            match key_index(self.0@, key@) {
                Some(i) => r matches Ok(x) && *x == self.0@[i],
                None => r matches Err(SolarError::NotFound { noun, key: k }) && noun
                    == ErrNoun::ChatChannel && k@ == key@,
            },
    {
        find_in(&self.0, key, ErrNoun::ChatChannel)
    }

    /// The channel at the position `id`.
    pub fn get(&self, id: IndexId) -> (r: Result<&ChatChannel, SolarError>)
        ensures
            if (id as int) < self.0@.len() {
                r matches Ok(x) && *x == self.0@[id as int]
            } else {
                r matches Err(SolarError::NotFoundId { noun, id: i }) && noun
                    == ErrNoun::ChatChannel && i == id
            },
    {
        get_in(&self.0, id, ErrNoun::ChatChannel)
    }
}


proof fn lemma_no_twin_below(s: Seq<Seq<char>>, n: int)
    requires
        0 <= n <= s.len(),
        first_twin_below(s, n) is None,
    ensures
        forall|i: int| 0 <= i < n ==> !has_twin(s, i),
    decreases n,
{
    if n > 0 {
        lemma_no_twin_below(s, n - 1);
    }
}

proof fn lemma_key_index_unique<T: Idx>(s: Seq<T>, key: Seq<char>, i: int)
    requires
        0 <= i < s.len(),
        s[i].spec_key() == key,
        forall|j: int| 0 <= j < s.len() && j != i ==> #[trigger] s[j].spec_key() != key,
    ensures
        key_index(s, key) == Some(i),
{
    lemma_key_index_bounds(s, key, s.len() as int);
    match key_index(s, key) {
        Some(k) => {},
        None => {
            assert(s[i].spec_key() != key);
        },
    }
}

/// In the mode index of names without a duplicate, each name is found at its own
/// position, with the hash of the name as its id.
pub proof fn lemma_mode_index_finds_each(names: Seq<String>, i: int)
    requires
        first_twin(str_views(names)) is None,
        0 <= i < names.len(),
    ensures
        key_index(mode_index_of(names), names[i]@) == Some(i),
        mode_index_of(names)[i].id == xxh3_str(names[i]@),
{
    let v = str_views(names);
    let s = mode_index_of(names);
    lemma_no_twin_below(v, v.len() as int);
    assert(!has_twin(v, i));
    assert forall|j: int| 0 <= j < s.len() && j != i implies #[trigger] s[j].spec_key() != names[i]@ by {
        assert(v[j] == names[j]@);
        assert(v[i] == names[i]@);
        if names[j]@ == names[i]@ {
            assert(v[j] == v[i]);
        }
    }
    lemma_key_index_unique(s, names[i]@, i);
}

/// In the channel name index of names without a duplicate, each name is found at
/// its own position, with the hash of the name as its id.
pub proof fn lemma_channel_index_finds_each(names: Seq<String>, i: int)
    requires
        first_twin(str_views(names)) is None,
        0 <= i < names.len(),
    ensures
        key_index(channel_index_of(names), names[i]@) == Some(i),
        channel_index_of(names)[i].id == xxh3_str(names[i]@),
{
    let v = str_views(names);
    let s = channel_index_of(names);
    lemma_no_twin_below(v, v.len() as int);
    assert(!has_twin(v, i));
    assert forall|j: int| 0 <= j < s.len() && j != i implies #[trigger] s[j].spec_key() != names[i]@ by {
        assert(v[j] == names[j]@);
        assert(v[i] == names[i]@);
        if names[j]@ == names[i]@ {
            assert(v[j] == v[i]);
        }
    }
    lemma_key_index_unique(s, names[i]@, i);
}

} // verus!
