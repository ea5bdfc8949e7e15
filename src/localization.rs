//! Localised text: the known languages, and the phrases of the language in
//! use, looked up by key.
use vstd::prelude::*;

verus! {

/// Text pairs with distinct keys.
pub open spec fn text_keys_unique(s: Seq<(String, String)>) -> bool {
    forall|i: int, j: int| 0 <= i < j < s.len() ==> (#[trigger] s[i]).0@ != (#[trigger] s[j]).0@
}

/// The value stored under `key`, if any.
pub open spec fn text_lookup(s: Seq<(String, String)>, key: Seq<char>) -> Option<Seq<char>> {
    if exists|i: int| 0 <= i < s.len() && (#[trigger] s[i]).0@ == key {
        Some(s[choose|i: int| 0 <= i < s.len() && (#[trigger] s[i]).0@ == key].1@)
    } else {
        None
    }
}

pub struct LocaleHandler {
    /// Language codes and the names of the languages.
    pub localizations: Vec<(String, String)>,
    pub current_locale: String,
    /// The phrases of the current language, by key.
    pub language_data: Vec<(String, String)>,
}

/// Checks that the keys of `v` are distinct.
fn keys_distinct(v: &Vec<(String, String)>) -> (r: bool)
    ensures
        r == text_keys_unique(v@),
{
    let n = v.len();
    let mut i: usize = 0;
    while i < n
        invariant
            n == v@.len(),
            i <= n,
            forall|a: int, b: int| 0 <= a < b < n && a < i ==> (#[trigger] v@[a]).0@ != (#[trigger] v@[b]).0@,
        decreases n - i,
    {
        let mut j: usize = i + 1;
        while j < n
            invariant
                n == v@.len(),
                i < n,
                i + 1 <= j <= n,
                forall|a: int, b: int| 0 <= a < b < n && a < i ==> (#[trigger] v@[a]).0@ != (#[trigger] v@[b]).0@,
                forall|b: int| i < b < j ==> v@[i as int].0@ != (#[trigger] v@[b]).0@,
            decreases n - j,
        {
            if v[i].0 == v[j].0 {
                return false;
            }
            j = j + 1;
        }
        i = i + 1;
    }
    true
}

impl LocaleHandler {
    /// Checks that language codes and phrase keys are distinct.
    pub fn is_valid(&self) -> (r: bool)
        ensures
            r == self.wf(),
    {
        keys_distinct(&self.localizations) && keys_distinct(&self.language_data)
    }

    pub open spec fn wf(&self) -> bool {
        text_keys_unique(self.localizations@) && text_keys_unique(self.language_data@)
    }

    /// A handler over the known languages, none of them in use yet.
    pub fn new(localizations: Vec<(String, String)>) -> (r: Self)
        ensures
            r.localizations@ == localizations@,
            r.current_locale@ == Seq::<char>::empty(),
            r.language_data@.len() == 0,
    {
        LocaleHandler { localizations, current_locale: String::new(), language_data: Vec::new() }
    }

    /// Switches to language `code`, whose phrases are `language_data`.
    pub fn set_locale(&mut self, code: String, language_data: Vec<(String, String)>)
        ensures
            final(self).current_locale == code,
            final(self).language_data@ == language_data@,
            final(self).localizations@ == old(self).localizations@,
    {
        self.current_locale = code;
        self.language_data = language_data;
    }

    /// The phrase stored under `key` in the current language.
    pub fn phrase(&self, key: &str) -> (r: Option<String>)
        requires
            self.wf(),
        ensures
            match r {
                Some(v) => text_lookup(self.language_data@, key@) == Some(v@),
                None => text_lookup(self.language_data@, key@) is None,
            },
    {
        let k = key.to_owned();
        let mut i: usize = 0;
        while i < self.language_data.len()
            invariant
                self.wf(),
                i <= self.language_data@.len(),
                k@ == key@,
                forall|j: int| 0 <= j < i ==> (#[trigger] self.language_data@[j]).0@ != key@,
            decreases self.language_data@.len() - i,
        {
            if self.language_data[i].0 == k {
                let v = self.language_data[i].1.clone();
                proof {
                    let j = choose|j: int| 0 <= j < self.language_data@.len() && (#[trigger] self.language_data@[j]).0@ == key@;
                    if j != i as int {
                        assert(j > i as int);
                        assert(self.language_data@[i as int].0@ != self.language_data@[j].0@);
                    }
                }
                return Some(v);
            }
            i = i + 1;
        }
        None
    }
}

} // verus!
