//! Settings: an ordered store of named values, each held as bytes.
//!
//! Writing a name that is present overwrites its value in place; writing a
//! new name appends it. Reading a name that is absent, or whose bytes do not
//! decode to the requested type, gives `None`.
use vstd::prelude::*;

use crate::bytes::{le32, le32_bytes, lemma_le32_round_trip, push_le32, read_u32_le};

verus! {

/// A value that a setting can hold, with its byte encoding.
pub trait SettingValue: Sized {
    /// The bytes that the value is stored as.
    spec fn encoded(&self) -> Seq<u8>;

    /// The value that stored bytes read back as, if any.
    spec fn decoded(bytes: Seq<u8>) -> Option<Self>;

    /// A stored value reads back as itself.
    proof fn lemma_decode_encoded(v: Self)
        ensures
            Self::decoded(v.encoded()) == Some(v),
    ;

    /// The bytes that the value is stored as.
    fn as_bytes(&self) -> (r: Vec<u8>)
        ensures
            r@ == self.encoded(),
    ;

    /// The value that stored bytes read back as, if any.
    fn from_bytes(bytes: &Vec<u8>) -> (r: Option<Self>)
        ensures
            r == Self::decoded(bytes@),
    ;
}

/// `u32` values are stored as four little-endian bytes. A 32-bit float is
/// stored as its bit pattern.
impl SettingValue for u32 {
    open spec fn encoded(&self) -> Seq<u8> {
        le32_bytes(*self as int)
    }

    open spec fn decoded(bytes: Seq<u8>) -> Option<u32> {
        if bytes.len() == 4 {
            Some(le32(bytes, 0) as u32)
        } else {
            None
        }
    }

    proof fn lemma_decode_encoded(v: u32) {
        lemma_le32_round_trip(v as int);
    }

    fn as_bytes(&self) -> (r: Vec<u8>) {
        let mut out: Vec<u8> = Vec::new();
        push_le32(&mut out, *self);
        assert(out@ =~= le32_bytes(*self as int));
        out
    }

    fn from_bytes(bytes: &Vec<u8>) -> (r: Option<u32>) {
        if bytes.len() == 4 {
            Some(read_u32_le(bytes, 0))
        } else {
            None
        }
    }
}

/// `u64` values are stored as eight little-endian bytes.
impl SettingValue for u64 {
    open spec fn encoded(&self) -> Seq<u8> {
        le32_bytes(*self as int % 0x1_0000_0000) + le32_bytes(*self as int / 0x1_0000_0000)
    }

    open spec fn decoded(bytes: Seq<u8>) -> Option<u64> {
        if bytes.len() == 8 {
            Some((le32(bytes, 0) + 0x1_0000_0000 * le32(bytes, 4)) as u64)
        } else {
            None
        }
    }

    proof fn lemma_decode_encoded(v: u64) {
        let lo = v as int % 0x1_0000_0000;
        let hi = v as int / 0x1_0000_0000;
        lemma_le32_round_trip(lo);
        lemma_le32_round_trip(hi);
        let b = v.encoded();
        assert(le32(b, 0) == le32(le32_bytes(lo), 0));
        assert(le32(b, 4) == le32(le32_bytes(hi), 0));
    }

    fn as_bytes(&self) -> (r: Vec<u8>) {
        let mut out: Vec<u8> = Vec::new();
        push_le32(&mut out, (*self % 0x1_0000_0000) as u32);
        push_le32(&mut out, (*self / 0x1_0000_0000) as u32);
        assert(out@ =~= self.encoded());
        out
    }

    fn from_bytes(bytes: &Vec<u8>) -> (r: Option<u64>) {
        if bytes.len() == 8 {
            let lo = read_u32_le(bytes, 0) as u64;
            let hi = read_u32_le(bytes, 4) as u64;
            Some(lo + 0x1_0000_0000 * hi)
        } else {
            None
        }
    }
}

/// A named setting: a name and the bytes of its value.
pub struct AudioSetting {
    pub name: String,
    pub value: Vec<u8>,
}

impl AudioSetting {
    /// The name and the bytes of the setting.
    pub open spec fn pair(&self) -> (Seq<char>, Seq<u8>) {
        (self.name@, self.value@)
    }

    /// Create a new setting.
    pub fn new<T: SettingValue>(name: &str, value: T) -> (r: AudioSetting)
        ensures
            r.name@ == name@,
            r.value@ == value.encoded(),
    {
        AudioSetting { name: name.to_owned(), value: value.as_bytes() }
    }
}

/// The stored settings after writing `value` under `name`: in place of the
/// first setting of that name, or appended when there is none.
pub open spec fn with_setting(s: Seq<(Seq<char>, Seq<u8>)>, name: Seq<char>, value: Seq<u8>) -> Seq<
    (Seq<char>, Seq<u8>),
>
    decreases s.len(),
{
    if s.len() == 0 {
        seq![(name, value)]
    } else if s[0].0 == name {
        s.update(0, (name, value))
    } else {
        seq![s[0]] + with_setting(s.skip(1), name, value)
    }
}

/// The stored settings after writing each pair of `list`, in order.
pub open spec fn with_settings(
    s: Seq<(Seq<char>, Seq<u8>)>,
    list: Seq<(Seq<char>, Seq<u8>)>,
) -> Seq<(Seq<char>, Seq<u8>)>
    decreases list.len(),
{
    if list.len() == 0 {
        s
    } else {
        with_setting(with_settings(s, list.drop_last()), list.last().0, list.last().1)
    }
}

/// The value stored under `name`, if any.
pub open spec fn lookup(s: Seq<(Seq<char>, Seq<u8>)>, name: Seq<char>) -> Option<Seq<u8>>
    decreases s.len(),
{
    if s.len() == 0 {
        None
    } else if s[0].0 == name {
        Some(s[0].1)
    } else {
        lookup(s.skip(1), name)
    }
}

/// Whether no two stored settings share a name.
pub open spec fn names_unique(s: Seq<(Seq<char>, Seq<u8>)>) -> bool {
    forall|i: int, j: int| 0 <= i < j < s.len() ==> s[i].0 != s[j].0
}

/// What a list of settings holds: names and bytes, in order.
pub open spec fn pairs_of(list: Seq<AudioSetting>) -> Seq<(Seq<char>, Seq<u8>)> {
    list.map_values(|s: AudioSetting| s.pair())
}

/// The settings of an effect: named values in the order they were first
/// written, each name once.
pub struct AudioSettings {
    settings: Vec<AudioSetting>,
}

impl View for AudioSettings {
    type V = Seq<(Seq<char>, Seq<u8>)>;

    closed spec fn view(&self) -> Seq<(Seq<char>, Seq<u8>)> {
        pairs_of(self.settings@)
    }
}

/// Writing a name keeps the names unique and the earlier names in their
/// places; afterwards the name reads back as the written bytes, and every
/// other name reads as before.
pub proof fn lemma_with_setting(s: Seq<(Seq<char>, Seq<u8>)>, name: Seq<char>, value: Seq<u8>)
    requires
        names_unique(s),
    ensures
        names_unique(with_setting(s, name, value)),
        with_setting(s, name, value).len() == s.len() || with_setting(s, name, value).len()
            == s.len() + 1,
        forall|i: int| 0 <= i < s.len() ==> (#[trigger] with_setting(s, name, value)[i]).0 == s[i].0,
        with_setting(s, name, value).len() == s.len() + 1 ==> with_setting(s, name, value)[s.len()
            as int].0 == name,
        lookup(with_setting(s, name, value), name) == Some(value),
        forall|other: Seq<char>|
            other != name ==> lookup(#[trigger] with_setting(s, name, value), other) == lookup(
                s,
                other,
            ),
    decreases s.len(),
{
    let w = with_setting(s, name, value);
    if s.len() == 0 {
        assert(w.skip(1) =~= Seq::<(Seq<char>, Seq<u8>)>::empty());
        assert forall|other: Seq<char>| other != name implies lookup(
            #[trigger] with_setting(s, name, value),
            other,
        ) == lookup(s, other) by {
            assert(lookup(w.skip(1), other) == None::<Seq<u8>>);
        }
    } else if s[0].0 == name {
        assert(w.skip(1) =~= s.skip(1));
        assert forall|other: Seq<char>| other != name implies lookup(
            #[trigger] with_setting(s, name, value),
            other,
        ) == lookup(s, other) by {
            assert(lookup(w, other) == lookup(w.skip(1), other));
        }
    } else {
        let t = s.skip(1);
        assert(names_unique(t)) by {
            assert forall|i: int, j: int| 0 <= i < j < t.len() implies t[i].0 != t[j].0 by {
                assert(t[i] == s[i + 1] && t[j] == s[j + 1]);
            }
        }
        lemma_with_setting(t, name, value);
        let wt = with_setting(t, name, value);
        assert(w.skip(1) =~= wt);
        assert forall|i: int| 0 <= i < s.len() implies (#[trigger] w[i]).0 == s[i].0 by {
            if i > 0 {
                assert(w[i] == wt[i - 1]);
                assert(t[i - 1] == s[i]);
            }
        }
        assert forall|i: int, j: int| 0 <= i < j < w.len() implies w[i].0 != w[j].0 by {
            if i == 0 {
                assert(w[j] == wt[j - 1]);
                if j - 1 < t.len() {
                    assert(t[j - 1] == s[j]);
                }
            } else {
                assert(w[i] == wt[i - 1] && w[j] == wt[j - 1]);
            }
        }
        assert forall|other: Seq<char>| other != name implies lookup(
            #[trigger] with_setting(s, name, value),
            other,
        ) == lookup(s, other) by {
            if s[0].0 != other {
                assert(lookup(w, other) == lookup(wt, other));
                assert(lookup(s, other) == lookup(t, other));
            }
        }
    }
}

/// The position of the first stored setting named `name`.
spec fn position_matches(s: Seq<(Seq<char>, Seq<u8>)>, name: Seq<char>, i: int) -> bool {
    0 <= i < s.len() && s[i].0 == name && forall|j: int| 0 <= j < i ==> s[j].0 != name
}

proof fn lemma_lookup_at(s: Seq<(Seq<char>, Seq<u8>)>, name: Seq<char>, i: int)
    requires
        position_matches(s, name, i),
    ensures
        lookup(s, name) == Some(s[i].1),
    decreases i,
{
    if i > 0 {
        let t = s.skip(1);
        assert(position_matches(t, name, i - 1)) by {
            assert forall|j: int| 0 <= j < i - 1 implies t[j].0 != name by {
                assert(t[j] == s[j + 1]);
            }
        }
        lemma_lookup_at(t, name, i - 1);
    }
}

proof fn lemma_with_setting_at(s: Seq<(Seq<char>, Seq<u8>)>, name: Seq<char>, value: Seq<u8>, i: int)
    requires
        position_matches(s, name, i),
    ensures
        with_setting(s, name, value) == s.update(i, (name, value)),
    decreases i,
{
    if i > 0 {
        let t = s.skip(1);
        assert(position_matches(t, name, i - 1)) by {
            assert forall|j: int| 0 <= j < i - 1 implies t[j].0 != name by {
                assert(t[j] == s[j + 1]);
            }
        }
        lemma_with_setting_at(t, name, value, i - 1);
        assert(seq![s[0]] + t.update(i - 1, (name, value)) =~= s.update(i, (name, value)));
    }
}

proof fn lemma_absent(s: Seq<(Seq<char>, Seq<u8>)>, name: Seq<char>, value: Seq<u8>)
    requires
        forall|j: int| 0 <= j < s.len() ==> s[j].0 != name,
    ensures
        lookup(s, name) == None::<Seq<u8>>,
        with_setting(s, name, value) == s.push((name, value)),
    decreases s.len(),
{
    if s.len() > 0 {
        let t = s.skip(1);
        assert forall|j: int| 0 <= j < t.len() implies t[j].0 != name by {
            assert(t[j] == s[j + 1]);
        }
        lemma_absent(t, name, value);
        assert(seq![s[0]] + t.push((name, value)) =~= s.push((name, value)));
    }
}

impl AudioSettings {
    /// Whether no two stored settings share a name.
    pub closed spec fn wf(&self) -> bool {
        names_unique(self@)
    }

    /// A store with no settings.
    pub fn empty() -> (r: AudioSettings)
        ensures
            r.wf(),
            r@ == Seq::<(Seq<char>, Seq<u8>)>::empty(),
    {
        let r = AudioSettings { settings: Vec::new() };
        assert(r@ =~= Seq::<(Seq<char>, Seq<u8>)>::empty());
        r
    }

    /// Create a store holding the given settings, written in order.
    pub fn new<T: AudioSettingsSourceList>(settings: T) -> (r: AudioSettings)
        ensures
            r.wf(),
            r@ == with_settings(Seq::empty(), settings.setting_list()),
    {
        let mut r = AudioSettings::empty();
        r.set_m(settings);
        r
    }

    /// The index of the setting named `name`, if there is one.
    fn position(&self, name: &String) -> (r: Option<usize>)
        ensures
            r matches Some(i) ==> position_matches(self@, name@, i as int),
            r is None ==> forall|j: int| 0 <= j < self@.len() ==> self@[j].0 != name@,
    {
        let n = self.settings.len();
        let mut i: usize = 0;
        while i < n
            invariant
                n == self.settings@.len(),
                i <= n,
                forall|j: int| 0 <= j < i ==> self@[j].0 != name@,
            decreases n - i,
        {
            if self.settings[i].name == *name {
                return Some(i);
            }
            i += 1;
        }
        None
    }

    /// The bytes stored under `name`, if any.
    pub fn get_bytes(&self, name: &str) -> (r: Option<&Vec<u8>>)
        ensures
            match r {
                Some(b) => lookup(self@, name@) == Some(b@),
                None => lookup(self@, name@) == None::<Seq<u8>>,
            },
    {
        let key = name.to_owned();
        match self.position(&key) {
            Some(i) => {
                proof {
                    lemma_lookup_at(self@, name@, i as int);
                }
                Some(&self.settings[i].value)
            },
            None => {
                proof {
                    lemma_absent(self@, name@, Seq::empty());
                }
                None
            },
        }
    }

    /// Get a setting by name: `None` when it is absent or its bytes do not
    /// decode to a `T`.
    pub fn get<T: SettingValue>(&self, name: &str) -> (r: Option<T>)
        ensures
            r == match lookup(self@, name@) {
                Some(b) => T::decoded(b),
                None => None,
            },
    {
        match self.get_bytes(name) {
            Some(b) => T::from_bytes(b),
            None => None,
        }
    }

    /// Get a setting by name, or `or` when `get` finds none.
    pub fn get_or<T: SettingValue>(&self, name: &str, or: T) -> (r: T)
        ensures
            r == match lookup(self@, name@) {
                Some(b) => match T::decoded(b) {
                    Some(v) => v,
                    None => or,
                },
                None => or,
            },
    {
        match self.get(name) {
            Some(v) => v,
            None => or,
        }
    }

    /// Store `value` under `name`: in place of the setting of that name, or
    /// appended when there is none.
    pub fn set_bytes(&mut self, name: &str, value: Vec<u8>)
        requires
            old(self).wf(),
        ensures
            final(self).wf(),
            final(self)@ == with_setting(old(self)@, name@, value@),
    {
        let key = name.to_owned();
        proof {
            lemma_with_setting(self@, name@, value@);
        }
        match self.position(&key) {
            Some(i) => {
                proof {
                    lemma_with_setting_at(self@, name@, value@, i as int);
                }
                let ghost before = self.settings@;
                self.settings.set(i, AudioSetting { name: key, value });
                assert(self@ =~= pairs_of(before).update(i as int, (name@, value@)));
            },
            None => {
                proof {
                    lemma_absent(self@, name@, value@);
                }
                let ghost before = self.settings@;
                self.settings.push(AudioSetting { name: key, value });
                assert(self@ =~= pairs_of(before).push((name@, value@)));
            },
        }
    }

    /// Set a setting by name.
    pub fn set<T: SettingValue>(&mut self, name: &str, value: T)
        requires
            old(self).wf(),
        ensures
            final(self).wf(),
            final(self)@ == with_setting(old(self)@, name@, value.encoded()),
    {
        self.set_bytes(name, value.as_bytes());
    }

    /// Set several settings by name, in the order of the list.
    pub fn set_m<T: AudioSettingsSourceList>(&mut self, settings: T)
        requires
            old(self).wf(),
        ensures
            final(self).wf(),
            final(self)@ == with_settings(old(self)@, settings.setting_list()),
    {
        let ghost start = self@;
        let ghost list = settings.setting_list();
        let mut items = settings.to_settings();
        let n = items.len();
        let ghost all = items@;
        let mut rest: Vec<AudioSetting> = Vec::new();
        let mut k: usize = n;
        while k > 0
            invariant
                k <= n == all.len(),
                items@ == all.take(k as int),
                rest@ == all.skip(k as int).reverse(),
            decreases k,
        {
            let item = items.pop().unwrap();
            rest.push(item);
            k -= 1;
            assert(items@ =~= all.take(k as int));
            assert(rest@ =~= all.skip(k as int).reverse());
        }
        let mut i: usize = 0;
        assert(with_settings(start, list.take(0)) == start);
        while i < n
            invariant
                i <= n == all.len(),
                pairs_of(all) == list,
                rest@ == all.skip(i as int).reverse(),
                self.wf(),
                self@ == with_settings(start, list.take(i as int)),
            decreases n - i,
        {
            assert(rest@.last() == all[i as int]);
            let item = rest.pop().unwrap();
            self.set_bytes(item.name.as_str(), item.value);
            i += 1;
            assert(list.take(i as int).drop_last() =~= list.take(i as int - 1));
            assert(rest@ =~= all.skip(i as int).reverse());
        }
        assert(list.take(n as int) =~= list);
    }
}

impl Default for AudioSettings {
    fn default() -> (r: AudioSettings)
        ensures
            r.wf(),
            r@ == Seq::<(Seq<char>, Seq<u8>)>::empty(),
    {
        AudioSettings::empty()
    }
}

/// A list of named values that settings can be made from.
pub trait AudioSettingsSourceList: Sized {
    /// The names and bytes of the list, in order.
    spec fn setting_list(&self) -> Seq<(Seq<char>, Seq<u8>)>;

    /// The settings of the list, in order.
    fn to_settings(self) -> (r: Vec<AudioSetting>)
        ensures
            pairs_of(r@) == self.setting_list(),
    ;
}

impl<'a, A: SettingValue> AudioSettingsSourceList for (&'a str, A) {
    open spec fn setting_list(&self) -> Seq<(Seq<char>, Seq<u8>)> {
        seq![(self.0@, self.1.encoded())]
    }

    fn to_settings(self) -> (r: Vec<AudioSetting>) {
        let mut r: Vec<AudioSetting> = Vec::new();
        r.push(AudioSetting::new(self.0, self.1));
        assert(pairs_of(r@) =~= self.setting_list());
        r
    }
}

impl<'a, A: SettingValue> AudioSettingsSourceList for Vec<(&'a str, A)> {
    open spec fn setting_list(&self) -> Seq<(Seq<char>, Seq<u8>)> {
        self@.map_values(|p: (&'a str, A)| (p.0@, p.1.encoded()))
    }

    fn to_settings(self) -> (r: Vec<AudioSetting>) {
        let ghost list = self.setting_list();
        let ghost all = self@;
        assert(forall|j: int| 0 <= j < all.len() ==> #[trigger] list[j] == (all[j].0@, all[j].1.encoded()));
        let mut items = self;
        let mut reversed: Vec<(&'a str, A)> = Vec::new();
        let n = items.len();
        let mut k: usize = n;
        while k > 0
            invariant
                k <= n == all.len(),
                items@ == all.take(k as int),
                reversed@ == all.skip(k as int).reverse(),
            decreases k,
        {
            let item = items.pop().unwrap();
            reversed.push(item);
            k -= 1;
            assert(items@ =~= all.take(k as int));
            assert(reversed@ =~= all.skip(k as int).reverse());
        }
        let mut r: Vec<AudioSetting> = Vec::new();
        let mut i: usize = 0;
        while i < n
            invariant
                i <= n == all.len(),
                list.len() == all.len(),
                forall|j: int| 0 <= j < all.len() ==> #[trigger] list[j] == (all[j].0@, all[j].1.encoded()),
                reversed@ == all.skip(i as int).reverse(),
                pairs_of(r@) == list.take(i as int),
            decreases n - i,
        {
            assert(reversed@.last() == all[i as int]);
            let ghost before = r@;
            let (name, value) = reversed.pop().unwrap();
            assert(name == all[i as int].0 && value == all[i as int].1);
            let setting = AudioSetting::new(name, value);
            assert(setting.pair() == list[i as int]);
            r.push(setting);
            assert(pairs_of(r@) =~= pairs_of(before).push(setting.pair()));
            i += 1;
            assert(reversed@ =~= all.skip(i as int).reverse());
            assert(pairs_of(r@) =~= list.take(i as int));
        }
        assert(list.take(n as int) =~= list);
        r
    }
}

impl<'a, A: SettingValue, B: SettingValue> AudioSettingsSourceList for (
    (&'a str, A),
    (&'a str, B),
) {
    open spec fn setting_list(&self) -> Seq<(Seq<char>, Seq<u8>)> {
        seq![(self.0.0@, self.0.1.encoded()), (self.1.0@, self.1.1.encoded())]
    }

    fn to_settings(self) -> (r: Vec<AudioSetting>) {
        let ghost list = self.setting_list();
        let (a, b) = self;
        let mut r: Vec<AudioSetting> = Vec::new();
        r.push(AudioSetting::new(a.0, a.1));
        r.push(AudioSetting::new(b.0, b.1));
        assert(pairs_of(r@) =~= list);
        r
    }
}

impl<'a, A: SettingValue, B: SettingValue, C: SettingValue> AudioSettingsSourceList for (
    (&'a str, A),
    (&'a str, B),
    (&'a str, C),
) {
    open spec fn setting_list(&self) -> Seq<(Seq<char>, Seq<u8>)> {
        seq![
            (self.0.0@, self.0.1.encoded()),
            (self.1.0@, self.1.1.encoded()),
            (self.2.0@, self.2.1.encoded()),
        ]
    }

    fn to_settings(self) -> (r: Vec<AudioSetting>) {
        let ghost list = self.setting_list();
        let (a, b, c) = self;
        let mut r: Vec<AudioSetting> = Vec::new();
        r.push(AudioSetting::new(a.0, a.1));
        r.push(AudioSetting::new(b.0, b.1));
        r.push(AudioSetting::new(c.0, c.1));
        assert(pairs_of(r@) =~= list);
        r
    }
}

impl<'a, A: SettingValue, B: SettingValue, C: SettingValue, D: SettingValue> AudioSettingsSourceList for (
    (&'a str, A),
    (&'a str, B),
    (&'a str, C),
    (&'a str, D),
) {
    open spec fn setting_list(&self) -> Seq<(Seq<char>, Seq<u8>)> {
        seq![
            (self.0.0@, self.0.1.encoded()),
            (self.1.0@, self.1.1.encoded()),
            (self.2.0@, self.2.1.encoded()),
            (self.3.0@, self.3.1.encoded()),
        ]
    }

    fn to_settings(self) -> (r: Vec<AudioSetting>) {
        let ghost list = self.setting_list();
        let (a, b, c, d) = self;
        let mut r: Vec<AudioSetting> = Vec::new();
        r.push(AudioSetting::new(a.0, a.1));
        r.push(AudioSetting::new(b.0, b.1));
        r.push(AudioSetting::new(c.0, c.1));
        r.push(AudioSetting::new(d.0, d.1));
        assert(pairs_of(r@) =~= list);
        r
    }
}

} // verus!
