//! A stored content item: custom image or audio bytes keyed by trigger words.

use vstd::prelude::*;

use crate::utils::string_utils::{
    lower_of, normalize_spec, normalize_words, to_lower, trim_spec, trim_str,
};

verus! {

/// Every space replaced by an underscore.
pub open spec fn underscored(s: Seq<char>) -> Seq<char> {
    s.map_values(|c: char| if c == ' ' { '_' } else { c })
}

/// Replace every space with an underscore.
fn replace_spaces(s: &str) -> (r: String)
    ensures
        r@ == underscored(s@),
{
    let n = s.unicode_len();
    let mut out = String::new();
    let mut i: usize = 0;
    while i < n
        invariant
            n == s@.len(),
            0 <= i <= n,
            out@ == underscored(s@.subrange(0, i as int)),
        decreases n - i,
    {
        if s.get_char(i) == ' ' {
            out.append("_");
            proof {
                reveal_strlit("_");
            }
        } else {
            out.append(s.substring_char(i, i + 1));
        }
        proof {
            assert(underscored(s@.subrange(0, i + 1)) =~= underscored(
                s@.subrange(0, i as int),
            ).push(if s@[i as int] == ' ' {
                '_'
            } else {
                s@[i as int]
            }));
            assert(out@ =~= underscored(s@.subrange(0, i + 1)));
        }
        i += 1;
    }
    proof {
        assert(s@.subrange(0, n as int) =~= s@);
    }
    out
}

#[derive(Debug, Clone)]
pub struct ContentModel {
    pub id: i64,
    pub chat_id: i64,
    pub is_image: bool,
    pub words: String,
    pub name: String,
    pub data: Vec<u8>,
}

impl ContentModel {
    /// A fresh item: the trigger words are normalized, and the name has its
    /// spaces replaced by underscores, is trimmed, and is case-folded.
    pub fn from(chat_id: i64, is_image: bool, words: String, name: String, data: Vec<u8>) -> (r:
        Self)
        ensures
            r.id == 0,
            r.chat_id == chat_id,
            r.is_image == is_image,
            r.words@ == normalize_spec(words@),
            r.name@ == lower_of(trim_spec(underscored(name@))),
            r.data == data,
    {
        let replaced = replace_spaces(name.as_str());
        let trimmed = trim_str(replaced.as_str());
        Self {
            id: 0,
            chat_id,
            is_image,
            words: normalize_words(words),
            name: to_lower(trimmed.as_str()),
            data,
        }
    }
}

} // verus!
