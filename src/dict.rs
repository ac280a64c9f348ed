//! The pronunciation dictionary: a read-only word-for-word substitution.
use vstd::prelude::*;
use crate::text::same_text;

verus! {

#[verifier::external_type_specification]
#[verifier::external_body]
pub struct ExJsonError(serde_json::Error);

/// What `serde_json` reads from a text as an object of string values, or
/// `None` where the text is no such object.
pub uninterp spec fn json_string_object(text: Seq<char>) -> Option<Map<Seq<char>, Seq<char>>>;

/// Why a dictionary could not be read.
#[derive(Debug, Clone, Copy, PartialEq, Eq, Structural)]
pub enum DictError {
    InvalidFormat,
}

/// Pairs whose first components differ from each other.
pub open spec fn keys_distinct(v: Seq<(String, String)>) -> bool {
    forall|i: int, j: int| 0 <= i < v.len() && 0 <= j < v.len() && i != j ==> (#[trigger] v[i]).0@ != (#[trigger] v[j]).0@
}

/// The map that pairs with distinct keys spell out.
pub open spec fn pairs_map(v: Seq<(String, String)>) -> Map<Seq<char>, Seq<char>> {
    Map::new(
        |k: Seq<char>| exists|i: int| 0 <= i < v.len() && v[i].0@ == k,
        |k: Seq<char>| v[choose|i: int| 0 <= i < v.len() && v[i].0@ == k].1@,
    )
}

/// Relies on `serde_json::from_str` into a `HashMap<String, String>`: on
/// success the entries, each key once, in the map's own order.
#[verifier::external_body]
fn parse_entries(content: &str) -> (r: Result<Vec<(String, String)>, serde_json::Error>)
    ensures
        match r {
            Ok(v) => keys_distinct(v@) && json_string_object(content@) == Some(pairs_map(v@)),
            Err(_) => json_string_object(content@) is None,
        },
{
    serde_json::from_str::<std::collections::HashMap<String, String>>(content).map(|m| m.into_iter().collect())
}

/// Words and what to say in their place.
pub struct PronunciationDictionary {
    entries: Vec<(String, String)>,
}

impl PronunciationDictionary {
    pub closed spec fn view(&self) -> Map<Seq<char>, Seq<char>> {
        pairs_map(self.entries@)
    }

    pub closed spec fn wf(&self) -> bool {
        keys_distinct(self.entries@)
    }

    /// The empty dictionary.
    pub fn empty() -> (r: PronunciationDictionary)
        ensures
            r.wf(),
            r.view() == Map::<Seq<char>, Seq<char>>::empty(),
    {
        let r = PronunciationDictionary { entries: Vec::new() };
        assert(r.view() =~= Map::<Seq<char>, Seq<char>>::empty());
        r
    }

    /// Reads a dictionary from JSON text: an object whose values are strings.
    pub fn from_json(content: &str) -> (r: Result<PronunciationDictionary, DictError>)
        ensures
            match r {
                Ok(d) => d.wf() && json_string_object(content@) == Some(d.view()),
                Err(e) => e == DictError::InvalidFormat && json_string_object(content@) is None,
            },
    {
        match parse_entries(content) {
            Ok(entries) => Ok(PronunciationDictionary { entries }),
            Err(_) => Err(DictError::InvalidFormat),
        }
    }

    /// Builds the dictionary from the dictionary file's content; a missing
    /// file (`None`) gives the empty dictionary.
    pub fn from_file_content(content: Option<String>) -> (r: Result<PronunciationDictionary, DictError>)
        ensures
            match content {
                None => r is Ok && r->Ok_0.wf() && r->Ok_0.view() == Map::<Seq<char>, Seq<char>>::empty(),
                Some(c) => match r {
                    Ok(d) => d.wf() && json_string_object(c@) == Some(d.view()),
                    Err(e) => e == DictError::InvalidFormat && json_string_object(c@) is None,
                },
            },
    {
        match content {
            None => Ok(PronunciationDictionary::empty()),
            Some(c) => PronunciationDictionary::from_json(c.as_str()),
        }
    }

    /// The word to say for `input`: its entry when there is one, else
    /// `input` itself.
    pub fn translate<'a>(&'a self, input: &'a str) -> (r: &'a str)
        requires
            self.wf(),
        ensures
            r@ == if self.view().contains_key(input@) {
                self.view()[input@]
            } else {
                input@
            },
    {
        let mut i: usize = 0;
        while i < self.entries.len()
            invariant
                self.wf(),
                i <= self.entries@.len(),
                forall|k: int| 0 <= k < i ==> (#[trigger] self.entries@[k]).0@ != input@,
            decreases self.entries@.len() - i,
        {
            if same_text(self.entries[i].0.as_str(), input) {
                proof {
                    let m = self.view();
                    assert(m.contains_key(input@)) by {
                        assert(self.entries@[i as int].0@ == input@);
                    }
                    let c = choose|c: int| 0 <= c < self.entries@.len() && self.entries@[c].0@ == input@;
                    assert(c == i);
                }
                return self.entries[i].1.as_str();
            }
            i = i + 1;
        }
        proof {
            if self.view().contains_key(input@) {
                let c = choose|c: int| 0 <= c < self.entries@.len() && self.entries@[c].0@ == input@;
                assert(self.entries@[c].0@ == input@);
            }
        }
        input
    }
}

/// The position of the first space of `s`, if any.
pub open spec fn first_space(s: Seq<char>) -> Option<int>
    decreases s.len(),
{
    if s.len() == 0 {
        None
    } else if s[0] == ' ' {
        Some(0)
    } else {
        match first_space(s.drop_first()) {
            Some(k) => Some(k + 1),
            None => None,
        }
    }
}

/// A word as the dictionary says it.
pub open spec fn said_as(m: Map<Seq<char>, Seq<char>>, w: Seq<char>) -> Seq<char> {
    if m.contains_key(w) {
        m[w]
    } else {
        w
    }
}

/// A text with each space-separated word replaced as the dictionary says;
/// the spaces stay where they were.
pub open spec fn substituted(m: Map<Seq<char>, Seq<char>>, s: Seq<char>) -> Seq<char>
    decreases s.len(),
{
    match first_space(s) {
        Some(k) => if 0 <= k < s.len() {
            said_as(m, s.subrange(0, k)) + seq![' '] + substituted(m, s.subrange(k + 1, s.len() as int))
        } else {
            s
        },
        None => said_as(m, s),
    }
}

proof fn lemma_first_space_at(s: Seq<char>, k: int)
    requires
        0 <= k <= s.len(),
        forall|j: int| 0 <= j < k ==> s[j] != ' ',
    ensures
        k < s.len() && s[k] == ' ' ==> first_space(s) == Some(k),
        k == s.len() ==> first_space(s) is None,
    decreases k,
{
    if k > 0 {
        let t = s.drop_first();
        assert forall|j: int| 0 <= j < k - 1 implies t[j] != ' ' by {
            assert(t[j] == s[j + 1]);
        }
        lemma_first_space_at(t, k - 1);
    }
}

impl PronunciationDictionary {
    /// Says every space-separated word of `text` as the dictionary says it.
    pub fn substitute_words(&self, text: &str) -> (r: String)
        requires
            self.wf(),
        ensures
            r@ == substituted(self.view(), text@),
    {
        let n = text.unicode_len();
        let mut out = String::new();
        let mut start: usize = 0;
        let mut done = false;
        assert(text@.subrange(0, n as int) =~= text@);
        assert(out@ + substituted(self.view(), text@) =~= substituted(self.view(), text@));
        while !done
            invariant
                self.wf(),
                n == text@.len(),
                start <= n,
                !done ==> out@ + substituted(self.view(), text@.subrange(start as int, n as int))
                    == substituted(self.view(), text@),
                done ==> out@ == substituted(self.view(), text@),
            decreases n - start + (if done { 0int } else { 1int }),
        {
            let mut k: usize = start;
            while k < n && text.get_char(k) != ' '
                invariant
                    n == text@.len(),
                    start <= k <= n,
                    forall|j: int| start <= j < k ==> text@[j] != ' ',
                decreases n - k,
            {
                k = k + 1;
            }
            let ghost rest = text@.subrange(start as int, n as int);
            proof {
                assert forall|j: int| 0 <= j < k - start implies rest[j] != ' ' by {
                    assert(rest[j] == text@[start + j]);
                }
                lemma_first_space_at(rest, k - start);
                assert(rest.subrange(0, k - start) =~= text@.subrange(start as int, k as int));
            }
            let word = text.substring_char(start, k);
            let said = self.translate(word);
            out.append(said);
            if k < n {
                proof {
                    reveal_strlit(" ");
                    assert(rest.subrange(k - start + 1, rest.len() as int) =~= text@.subrange(k + 1, n as int));
                }
                out.append(" ");
                assert(out@ + substituted(self.view(), text@.subrange(k + 1, n as int)) =~= substituted(self.view(), text@));
                start = k + 1;
            } else {
                assert(out@ =~= substituted(self.view(), text@));
                done = true;
            }
        }
        out
    }
}

} // verus!
