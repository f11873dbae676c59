//! Localization helper
//!
//! Locale files are named `<lang>.locale` or `<lang>.base.locale` and hold
//! rows of the shape `"key" = "value";` where a key is one or more ASCII
//! word characters (letters, digits, underscore) and a value is one or more
//! characters other than a quote. Keys are deliberately restricted to ASCII:
//! values may hold any text, but a row whose key uses other characters is
//! skipped. Reading the files from their storage is the binary's work;
//! parsing their names and contents and looking text up is verified here.

use vstd::prelude::*;

use crate::models::error::HandlerError;
use crate::utils::string_utils::{lower_of, split_chars, split_str, to_lower, to_upper, upper_of};

verus! {

// ---------------------------------------------------------------------------
// The row grammar
// ---------------------------------------------------------------------------
/// A word character of a localization key: ASCII letters, digits and the
/// underscore. Wider Unicode word classes are beyond a statable predicate
/// here, so keys are kept ASCII by design.
pub open spec fn is_word_char(c: char) -> bool {
    (97 <= c as u32 && c as u32 <= 122) || (65 <= c as u32 && c as u32 <= 90) || (48 <= c as u32
        && c as u32 <= 57) || c == '_'
}

fn word_char(c: char) -> (r: bool)
    ensures
        r == is_word_char(c),
{
    let u = c as u32;
    (97 <= u && u <= 122) || (65 <= u && u <= 90) || (48 <= u && u <= 57) || c == '_'
}

/// The end of the run of word characters starting at `i`.
pub open spec fn word_run_end(s: Seq<char>, i: int) -> int
    decreases s.len() - i,
{
    if 0 <= i && i < s.len() && is_word_char(s[i]) {
        word_run_end(s, i + 1)
    } else {
        i
    }
}

/// The end of the run of non-quote characters starting at `i`.
pub open spec fn value_run_end(s: Seq<char>, i: int) -> int
    decreases s.len() - i,
{
    if 0 <= i && i < s.len() && s[i] != '"' {
        value_run_end(s, i + 1)
    } else {
        i
    }
}

/// The key, value and end position of a row match beginning exactly at `i`:
/// a quoted non-empty key of word characters, a literal ` = `, a quoted
/// non-empty value of non-quote characters, and a closing semicolon.
pub open spec fn row_match_at(s: Seq<char>, i: int) -> Option<(Seq<char>, Seq<char>, int)> {
    if !(0 <= i && i < s.len() && s[i] == '"') {
        Option::None
    } else {
        let j = word_run_end(s, i + 1);
        if j == i + 1 || !(j < s.len() && s[j] == '"') {
            Option::None
        } else if !(j + 4 < s.len() && s[j + 1] == ' ' && s[j + 2] == '=' && s[j + 3] == ' ' && s[j
            + 4] == '"') {
            Option::None
        } else {
            let m = value_run_end(s, j + 5);
            if m == j + 5 || !(m < s.len() && s[m] == '"') {
                Option::None
            } else if !(m + 1 < s.len() && s[m + 1] == ';') {
                Option::None
            } else {
                Option::Some((s.subrange(i + 1, j), s.subrange(j + 5, m), m + 2))
            }
        }
    }
}

// ---------------------------------------------------------------------------
// Association lists with overwrite-on-insert
// ---------------------------------------------------------------------------
/// The value stored under `k`, looking from the front.
pub open spec fn assoc_get(m: Seq<(Seq<char>, Seq<char>)>, k: Seq<char>) -> Option<Seq<char>>
    decreases m.len(),
{
    if m.len() == 0 {
        Option::None
    } else if m[0].0 == k {
        Option::Some(m[0].1)
    } else {
        assoc_get(m.drop_first(), k)
    }
}

/// Insert `k -> v`, overwriting the held value when the key is present.
pub open spec fn assoc_insert(
    m: Seq<(Seq<char>, Seq<char>)>,
    k: Seq<char>,
    v: Seq<char>,
) -> Seq<(Seq<char>, Seq<char>)>
    decreases m.len(),
{
    if m.len() == 0 {
        seq![(k, v)]
    } else if m[0].0 == k {
        seq![(k, v)] + m.drop_first()
    } else {
        seq![m[0]] + assoc_insert(m.drop_first(), k, v)
    }
}

/// The rows scanned from position `i` on, inserted left to right into `acc`.
pub open spec fn scan_insert(
    s: Seq<char>,
    i: int,
    acc: Seq<(Seq<char>, Seq<char>)>,
) -> Seq<(Seq<char>, Seq<char>)>
    decreases s.len() - i + 1,
{
    if i >= s.len() || i < 0 {
        acc
    } else {
        match row_match_at(s, i) {
            Option::Some((k, v, end)) => scan_insert(
                s,
                if i < end && end <= s.len() {
                    end
                } else {
                    i + 1
                },
                assoc_insert(acc, k, v),
            ),
            Option::None => scan_insert(s, i + 1, acc),
        }
    }
}

/// All key/value rows of a locale file's content, later rows overwriting
/// earlier ones with the same key.
pub open spec fn rows_data(content: Seq<char>) -> Seq<(Seq<char>, Seq<char>)> {
    scan_insert(content, 0, Seq::empty())
}

/// The character-level form of an association list of strings.
pub open spec fn data_view(d: Seq<(String, String)>) -> Seq<(Seq<char>, Seq<char>)> {
    Seq::new(d.len(), |i: int| (d[i].0@, d[i].1@))
}

// ---------------------------------------------------------------------------
// Exec scanning
// ---------------------------------------------------------------------------
fn word_run(s: &str, from: usize) -> (r: usize)
    requires
        from <= s@.len(),
    ensures
        r == word_run_end(s@, from as int),
        from <= r <= s@.len(),
{
    let n = s.unicode_len();
    let mut j = from;
    while j < n && word_char(s.get_char(j))
        invariant
            n == s@.len(),
            from <= j <= n,
            word_run_end(s@, from as int) == word_run_end(s@, j as int),
        decreases n - j,
    {
        j += 1;
    }
    j
}

fn value_run(s: &str, from: usize) -> (r: usize)
    requires
        from <= s@.len(),
    ensures
        r == value_run_end(s@, from as int),
        from <= r <= s@.len(),
{
    let n = s.unicode_len();
    let mut j = from;
    while j < n && s.get_char(j) != '"'
        invariant
            n == s@.len(),
            from <= j <= n,
            value_run_end(s@, from as int) == value_run_end(s@, j as int),
        decreases n - j,
    {
        j += 1;
    }
    j
}

/// Match one row of the grammar beginning exactly at position `i`.
fn row_match(s: &str, i: usize) -> (r: Option<(String, String, usize)>)
    requires
        i < s@.len(),
    ensures
        (r is Some) == (row_match_at(s@, i as int) is Some),
        r matches Some((k, v, e)) ==> row_match_at(s@, i as int) == Option::Some(
            (k@, v@, e as int),
        ) && i < e <= s@.len(),
{
    let n = s.unicode_len();
    if s.get_char(i) != '"' {
        return None;
    }
    let j = word_run(s, i + 1);
    if j == i + 1 || j >= n || s.get_char(j) != '"' {
        return None;
    }
    if !(n >= 5 && j <= n - 5 && s.get_char(j + 1) == ' ' && s.get_char(j + 2) == '='
        && s.get_char(j + 3) == ' ' && s.get_char(j + 4) == '"') {
        proof {
            assert((j + 4 < s@.len()) == (n >= 5 && j <= n - 5));
        }
        return None;
    }
    let m = value_run(s, j + 5);
    if m == j + 5 || m >= n || s.get_char(m) != '"' {
        return None;
    }
    if !(m + 1 < n && s.get_char(m + 1) == ';') {
        return None;
    }
    let key = String::from_str(s.substring_char(i + 1, j));
    let value = String::from_str(s.substring_char(j + 5, m));
    Some((key, value, m + 2))
}

/// Insert a pair, overwriting the value held under an equal key.
fn insert_pair(data: &mut Vec<(String, String)>, k: String, v: String)
    ensures
        data_view(final(data)@) == assoc_insert(data_view(old(data)@), k@, v@),
{
    let mut idx: usize = 0;
    while idx < data.len()
        invariant
            0 <= idx <= data.len(),
            data == old(data),
            forall|t: int| 0 <= t < idx ==> data_view(data@)[t].0 != k@,
        decreases data.len() - idx,
    {
        if data[idx].0.eq(&k) {
            data.set(idx, (k, v));
            proof {
                lemma_assoc_insert_found(data_view(old(data)@), k@, v@, idx as int);
                assert(data_view(data@) =~= data_view(old(data)@).update(
                    idx as int,
                    (k@, v@),
                ));
            }
            return ;
        }
        idx += 1;
    }
    data.push((k, v));
    proof {
        lemma_assoc_insert_missing(data_view(old(data)@), k@, v@);
        assert(data_view(data@) =~= data_view(old(data)@).push((k@, v@)));
    }
}

proof fn lemma_assoc_insert_found(m: Seq<(Seq<char>, Seq<char>)>, k: Seq<char>, v: Seq<char>, idx: int)
    requires
        0 <= idx < m.len(),
        m[idx].0 == k,
        forall|t: int| 0 <= t < idx ==> m[t].0 != k,
    ensures
        assoc_insert(m, k, v) == m.update(idx, (k, v)),
    decreases m.len(),
{
    if idx == 0 {
        assert(assoc_insert(m, k, v) == seq![(k, v)] + m.drop_first());
        assert(seq![(k, v)] + m.drop_first() =~= m.update(0, (k, v)));
    } else {
        assert(m[0].0 != k);
        lemma_assoc_insert_found(m.drop_first(), k, v, idx - 1);
        assert(seq![m[0]] + m.drop_first().update(idx - 1, (k, v)) =~= m.update(idx, (k, v)));
    }
}

proof fn lemma_assoc_insert_missing(m: Seq<(Seq<char>, Seq<char>)>, k: Seq<char>, v: Seq<char>)
    requires
        forall|t: int| 0 <= t < m.len() ==> m[t].0 != k,
    ensures
        assoc_insert(m, k, v) == m.push((k, v)),
    decreases m.len(),
{
    if m.len() == 0 {
        assert(assoc_insert(m, k, v) =~= m.push((k, v)));
    } else {
        lemma_assoc_insert_missing(m.drop_first(), k, v);
        assert(seq![m[0]] + m.drop_first().push((k, v)) =~= m.push((k, v)));
    }
}

/// Scan a locale file's content into its key/value data.
fn parse_rows(content: &str) -> (data: Vec<(String, String)>)
    ensures
        data_view(data@) == rows_data(content@),
{
    let n = content.unicode_len();
    let mut data: Vec<(String, String)> = Vec::new();
    let mut i: usize = 0;
    proof {
        assert(data_view(data@) =~= Seq::<(Seq<char>, Seq<char>)>::empty());
    }
    while i < n
        invariant
            n == content@.len(),
            0 <= i <= n,
            rows_data(content@) == scan_insert(content@, i as int, data_view(data@)),
        decreases n - i,
    {
        match row_match(content, i) {
            Some((k, v, end)) => {
                proof {
                    assert(scan_insert(content@, i as int, data_view(data@)) == scan_insert(
                        content@,
                        end as int,
                        assoc_insert(data_view(data@), k@, v@),
                    ));
                }
                insert_pair(&mut data, k, v);
                i = end;
            },
            None => {
                i += 1;
            },
        }
    }
    data
}

// ---------------------------------------------------------------------------
// Locale file metadata
// ---------------------------------------------------------------------------
/// The parse of a locale file name and content: the language code, whether
/// this is the base locale, and the key/value rows. Nothing, when the name
/// does not have two or three dot-separated parts ending in `locale`.
pub open spec fn meta_of(name: Seq<char>, content: Seq<char>) -> Option<
    (Seq<char>, bool, Seq<(Seq<char>, Seq<char>)>),
> {
    let comps = split_chars(name, '.');
    if comps.len() > 3 || comps.len() < 2 {
        Option::None
    } else if lower_of(comps.last()) != "locale"@ {
        Option::None
    } else {
        Option::Some(
            (comps[0], comps.len() == 3 && lower_of(comps[1]) == "base"@, rows_data(content)),
        )
    }
}

#[derive(Debug)]
pub struct LocaleFileMeta {
    lang: String,
    is_base: bool,
    data: Vec<(String, String)>,
}

impl LocaleFileMeta {
    pub closed spec fn lang_spec(&self) -> Seq<char> {
        self.lang@
    }

    pub closed spec fn is_base_spec(&self) -> bool {
        self.is_base
    }

    pub closed spec fn data_spec(&self) -> Seq<(Seq<char>, Seq<char>)> {
        data_view(self.data@)
    }

    /// Parse one locale file, given its file name and its text content.
    pub fn from(name: &str, content: &str) -> (r: Option<Self>)
        ensures
            (r is Some) == (meta_of(name@, content@) is Some),
            r matches Some(m) ==> meta_of(name@, content@) == Option::Some(
                (m.lang_spec(), m.is_base_spec(), m.data_spec()),
            ),
    {
        let components = split_str(name, '.');
        if components.len() > 3 || components.len() < 2 {
            return None;
        }
        proof {
            assert(components.deep_view().last() == components[components.len() - 1]@);
            assert(components.deep_view()[0] == components[0int]@);
            if components.len() == 3 {
                assert(components.deep_view()[1] == components[1int]@);
            }
        }
        let last = to_lower(components[components.len() - 1].as_str());
        if !last.eq(&String::from_str("locale")) {
            return None;
        }
        let is_base = components.len() == 3 && to_lower(components[1].as_str()).eq(
            &String::from_str("base"),
        );
        let data = parse_rows(content);
        Some(LocaleFileMeta { lang: components[0].clone(), is_base, data })
    }

    /// The display title of this locale: the language code uppercased, with
    /// a star marking the base locale.
    pub fn title(&self) -> (r: String)
        ensures
            self.is_base_spec() ==> r@ == upper_of(self.lang_spec() + "*"@),
            !self.is_base_spec() ==> r@ == upper_of(self.lang_spec()),
    {
        let mut result = self.lang.clone();
        if self.is_base {
            result.append("*");
        }
        to_upper(result.as_str())
    }
}

// ---------------------------------------------------------------------------
// The locale set
// ---------------------------------------------------------------------------
/// The first locale whose language code equals `lang` case-insensitively.
pub open spec fn find_lang(ls: Seq<LocaleFileMeta>, lang: Seq<char>, i: int) -> Option<int>
    decreases ls.len() - i + 1,
{
    if i < 0 || i >= ls.len() {
        Option::None
    } else if lower_of(ls[i].lang_spec()) == lower_of(lang) {
        Option::Some(i)
    } else {
        find_lang(ls, lang, i + 1)
    }
}

/// The first base locale.
pub open spec fn find_base(ls: Seq<LocaleFileMeta>, i: int) -> Option<int>
    decreases ls.len() - i + 1,
{
    if i < 0 || i >= ls.len() {
        Option::None
    } else if ls[i].is_base_spec() {
        Option::Some(i)
    } else {
        find_base(ls, i + 1)
    }
}

/// What `get` returns: the key's value in the locale matching `lang`, else
/// in the base locale, else the key itself; a chosen locale that lacks the
/// key also falls back to the key itself.
pub open spec fn get_spec(ls: Seq<LocaleFileMeta>, key: Seq<char>, lang: Seq<char>) -> Seq<char> {
    let chosen = match find_lang(ls, lang, 0) {
        Option::Some(i) => Option::Some(i),
        Option::None => find_base(ls, 0),
    };
    match chosen {
        Option::None => key,
        Option::Some(i) => match assoc_get(ls[i].data_spec(), key) {
            Option::Some(v) => v,
            Option::None => key,
        },
    }
}

/// Some locale holds a key that some other-language base locale lacks.
pub open spec fn missing_base_key(ls: Seq<LocaleFileMeta>) -> bool {
    exists|a: int, b: int, k: int|
        #![trigger ls[a].data_spec()[k], ls[b].data_spec()]
        0 <= a < ls.len() && 0 <= b < ls.len() && ls[b].lang_spec() != ls[a].lang_spec()
            && ls[b].is_base_spec() && 0 <= k < ls[a].data_spec().len() && assoc_get(
            ls[b].data_spec(),
            ls[a].data_spec()[k].0,
        ) is None
}

/// The metadata rows of a list of (file name, content) pairs, in order,
/// skipping files whose names do not fit the scheme.
pub open spec fn metas_of_files(fs: Seq<(Seq<char>, Seq<char>)>) -> Seq<
    (Seq<char>, bool, Seq<(Seq<char>, Seq<char>)>),
>
    decreases fs.len(),
{
    if fs.len() == 0 {
        Seq::empty()
    } else {
        metas_of_files(fs.drop_last()) + (match meta_of(fs.last().0, fs.last().1) {
            Option::Some(m) => seq![m],
            Option::None => Seq::empty(),
        })
    }
}

/// `missing_base_key`, stated over plain metadata rows.
pub open spec fn missing_base_key_rows(
    ms: Seq<(Seq<char>, bool, Seq<(Seq<char>, Seq<char>)>)>,
) -> bool {
    exists|a: int, b: int, k: int|
        #![trigger ms[a].2[k], ms[b].2]
        0 <= a < ms.len() && 0 <= b < ms.len() && ms[b].0 != ms[a].0 && ms[b].1 && 0 <= k
            < ms[a].2.len() && assoc_get(ms[b].2, ms[a].2[k].0) is None
}

/// The parsed locales carry exactly the given metadata rows.
pub open spec fn corresponds(
    ls: Seq<LocaleFileMeta>,
    ms: Seq<(Seq<char>, bool, Seq<(Seq<char>, Seq<char>)>)>,
) -> bool {
    ls.len() == ms.len() && forall|i: int|
        0 <= i < ls.len() ==> (#[trigger] ls[i]).lang_spec() == ms[i].0 && ls[i].is_base_spec()
            == ms[i].1 && ls[i].data_spec() == ms[i].2
}

proof fn lemma_missing_corresponds(
    ls: Seq<LocaleFileMeta>,
    ms: Seq<(Seq<char>, bool, Seq<(Seq<char>, Seq<char>)>)>,
)
    requires
        corresponds(ls, ms),
    ensures
        missing_base_key(ls) == missing_base_key_rows(ms),
{
    if missing_base_key(ls) {
        let (a, b, k) = choose|a: int, b: int, k: int|
            #![trigger ls[a].data_spec()[k], ls[b].data_spec()]
            0 <= a < ls.len() && 0 <= b < ls.len() && ls[b].lang_spec() != ls[a].lang_spec()
                && ls[b].is_base_spec() && 0 <= k < ls[a].data_spec().len() && assoc_get(
                ls[b].data_spec(),
                ls[a].data_spec()[k].0,
            ) is None;
        assert(ms[a].2[k] == ls[a].data_spec()[k]);
        assert(ms[b].2 == ls[b].data_spec());
        assert(missing_base_key_rows(ms));
    }
    if missing_base_key_rows(ms) {
        let (a, b, k) = choose|a: int, b: int, k: int|
            #![trigger ms[a].2[k], ms[b].2]
            0 <= a < ms.len() && 0 <= b < ms.len() && ms[b].0 != ms[a].0 && ms[b].1 && 0 <= k
                < ms[a].2.len() && assoc_get(ms[b].2, ms[a].2[k].0) is None;
        assert(ls[a].data_spec()[k] == ms[a].2[k]);
        assert(ls[b].data_spec() == ms[b].2);
        assert(missing_base_key(ls));
    }
}

#[derive(Debug)]
pub struct Locale {
    locales: Vec<LocaleFileMeta>,
}

impl Locale {
    pub closed spec fn locales_spec(&self) -> Seq<LocaleFileMeta> {
        self.locales@
    }

    /// Parse a set of locale files, given as file name and content pairs.
    /// Files whose names do not fit the scheme are skipped. The set is
    /// accepted exactly when no locale holds a key that another language's
    /// base locale lacks.
    pub fn parse(files: &Vec<(String, String)>) -> (r: Result<Self, HandlerError>)
        ensures
            (r is Ok) == !missing_base_key_rows(metas_of_files(data_view(files@))),
            r matches Ok(l) ==> corresponds(l.locales_spec(), metas_of_files(data_view(files@)))
                && !missing_base_key(l.locales_spec()),
            r is Err ==> r->Err_0.message is Some,
    {
        let ghost fv = data_view(files@);
        let mut locales: Vec<LocaleFileMeta> = Vec::new();
        let mut i: usize = 0;
        while i < files.len()
            invariant
                fv == data_view(files@),
                0 <= i <= files.len(),
                corresponds(locales@, metas_of_files(fv.take(i as int))),
            decreases files.len() - i,
        {
            proof {
                assert(fv.take(i + 1).drop_last() =~= fv.take(i as int));
                assert(fv.take(i + 1).last() == fv[i as int]);
                assert(fv[i as int].0 == files@[i as int].0@);
                assert(fv[i as int].1 == files@[i as int].1@);
            }
            if let Some(meta) = LocaleFileMeta::from(files[i].0.as_str(), files[i].1.as_str()) {
                locales.push(meta);
            }
            i += 1;
        }
        proof {
            assert(fv.take(files.len() as int) =~= fv);
        }
        let item = Self { locales };
        proof {
            lemma_missing_corresponds(item.locales_spec(), metas_of_files(fv));
        }
        match item._test_keys() {
            Ok(()) => Ok(item),
            Err(e) => Err(e),
        }
    }

    /// Get localized string
    ///
    /// Parameters:
    ///  - key: localization key
    ///  - lang: language code (ex.: en, ru)
    ///
    /// Return: localized string or key
    pub fn get(&self, key: &str, lang: &str) -> (r: String)
        ensures
            r@ == get_spec(self.locales_spec(), key@, lang@),
    {
        let n = self.locales.len();
        let mut chosen: Option<usize> = None;
        let mut i: usize = 0;
        let l_lang = to_lower(lang);
        while i < n
            invariant_except_break
                n == self.locales.len(),
                l_lang@ == lower_of(lang@),
                0 <= i <= n,
                find_lang(self.locales_spec(), lang@, 0) == find_lang(
                    self.locales_spec(),
                    lang@,
                    i as int,
                ),
                chosen is None,
            ensures
                n == self.locales.len(),
                match chosen {
                    Some(idx) => idx < n && find_lang(self.locales_spec(), lang@, 0)
                        == Option::Some(idx as int),
                    None => find_lang(self.locales_spec(), lang@, 0) is None,
                },
            decreases n - i,
        {
            let cand = to_lower(self.locales[i].lang.as_str());
            if cand.eq(&l_lang) {
                chosen = Some(i);
                proof {
                    assert(find_lang(self.locales_spec(), lang@, i as int) == Option::Some(
                        i as int,
                    ));
                }
                break ;
            }
            i += 1;
            proof {
                if i == n {
                    assert(find_lang(self.locales_spec(), lang@, n as int) is None);
                }
            }
        }
        if chosen.is_none() {
            let mut j: usize = 0;
            while j < n
                invariant_except_break
                    n == self.locales.len(),
                    0 <= j <= n,
                    find_base(self.locales_spec(), 0) == find_base(self.locales_spec(), j as int),
                    chosen is None,
                ensures
                    n == self.locales.len(),
                    match chosen {
                        Some(idx) => idx < n && find_base(self.locales_spec(), 0) == Option::Some(
                            idx as int,
                        ),
                        None => find_base(self.locales_spec(), 0) is None,
                    },
                decreases n - j,
            {
                if self.locales[j].is_base {
                    chosen = Some(j);
                    proof {
                        assert(find_base(self.locales_spec(), j as int) == Option::Some(j as int));
                    }
                    break ;
                }
                j += 1;
                proof {
                    if j == n {
                        assert(find_base(self.locales_spec(), n as int) is None);
                    }
                }
            }
        }
        match chosen {
            None => String::from_str(key),
            Some(idx) => {
                match Self::data_get(&self.locales[idx].data, key) {
                    Some(v) => v,
                    None => String::from_str(key),
                }
            },
        }
    }

    /// Look a key up in one locale's data.
    fn data_get(data: &Vec<(String, String)>, key: &str) -> (r: Option<String>)
        ensures
            match r {
                Some(v) => assoc_get(data_view(data@), key@) == Option::Some(v@),
                None => assoc_get(data_view(data@), key@) is None,
            },
    {
        let mut t: usize = 0;
        proof {
            assert(data_view(data@).skip(0) =~= data_view(data@));
        }
        while t < data.len()
            invariant
                0 <= t <= data.len(),
                assoc_get(data_view(data@), key@) == assoc_get(
                    data_view(data@).skip(t as int),
                    key@,
                ),
            decreases data.len() - t,
        {
            proof {
                assert(data_view(data@).skip(t as int)[0] == data_view(data@)[t as int]);
                assert(data_view(data@).skip(t as int).drop_first() =~= data_view(data@).skip(
                    t + 1,
                ));
            }
            if data[t].0.eq(&String::from_str(key)) {
                return Some(data[t].1.clone());
            }
            t += 1;
        }
        proof {
            assert(data_view(data@).skip(data.len() as int).len() == 0);
        }
        None
    }

    /// Refuse the locale set when some locale holds a key that another
    /// language's base locale lacks.
    fn _test_keys(&self) -> (r: Result<(), HandlerError>)
        ensures
            (r is Ok) == !missing_base_key(self.locales_spec()),
            r is Err ==> r->Err_0.message is Some,
    {
        let ghost ls = self.locales_spec();
        let n = self.locales.len();
        let mut is_error = false;
        let ghost mut wa: int = 0;
        let ghost mut wb: int = 0;
        let ghost mut wk: int = 0;
        let mut a: usize = 0;
        while a < n
            invariant
                n == self.locales.len(),
                ls == self.locales_spec(),
                is_error ==> 0 <= wa < n && 0 <= wb < n && ls[wb].lang_spec() != ls[wa].lang_spec()
                    && ls[wb].is_base_spec() && 0 <= wk < ls[wa].data_spec().len() && assoc_get(
                    ls[wb].data_spec(),
                    ls[wa].data_spec()[wk].0,
                ) is None,
                0 <= a <= n,
                !is_error ==> forall|x: int, y: int, z: int|
                    #![trigger ls[x].data_spec()[z], ls[y].data_spec()]
                    0 <= x < a && 0 <= y < n && ls[y].lang_spec() != ls[x].lang_spec()
                        && ls[y].is_base_spec() && 0 <= z < ls[x].data_spec().len() ==> assoc_get(
                        ls[y].data_spec(),
                        ls[x].data_spec()[z].0,
                    ) is Some,
            decreases n - a,
        {
            let mut b: usize = 0;
            while b < n
                invariant
                    n == self.locales.len(),
                    ls == self.locales_spec(),
                    0 <= a < n,
                    0 <= b <= n,
                    is_error ==> 0 <= wa < n && 0 <= wb < n && ls[wb].lang_spec()
                        != ls[wa].lang_spec() && ls[wb].is_base_spec() && 0 <= wk
                        < ls[wa].data_spec().len() && assoc_get(
                        ls[wb].data_spec(),
                        ls[wa].data_spec()[wk].0,
                    ) is None,
                    !is_error ==> forall|x: int, y: int, z: int|
                        #![trigger ls[x].data_spec()[z], ls[y].data_spec()]
                        0 <= x < a && 0 <= y < n && ls[y].lang_spec() != ls[x].lang_spec()
                            && ls[y].is_base_spec() && 0 <= z < ls[x].data_spec().len()
                            ==> assoc_get(
                            ls[y].data_spec(),
                            ls[x].data_spec()[z].0,
                        ) is Some,
                    !is_error ==> forall|y: int, z: int|
                        #![trigger ls[y].data_spec(), ls[a as int].data_spec()[z]]
                        0 <= y < b && ls[y].lang_spec() != ls[a as int].lang_spec()
                            && ls[y].is_base_spec() && 0 <= z < ls[a as int].data_spec().len()
                            ==> assoc_get(
                            ls[y].data_spec(),
                            ls[a as int].data_spec()[z].0,
                        ) is Some,
                decreases n - b,
            {
                let same_lang = self.locales[b].lang.eq(&self.locales[a].lang);
                if !same_lang && self.locales[b].is_base {
                    let keys = self.locales[a].data.len();
                    let mut z: usize = 0;
                    while z < keys
                        invariant
                            n == self.locales.len(),
                            ls == self.locales_spec(),
                            0 <= a < n,
                            0 <= b < n,
                            keys == self.locales[a as int].data.len(),
                            ls[b as int].lang_spec() != ls[a as int].lang_spec(),
                            ls[b as int].is_base_spec(),
                            0 <= z <= keys,
                            is_error ==> 0 <= wa < n && 0 <= wb < n && ls[wb].lang_spec()
                                != ls[wa].lang_spec() && ls[wb].is_base_spec() && 0 <= wk
                                < ls[wa].data_spec().len() && assoc_get(
                                ls[wb].data_spec(),
                                ls[wa].data_spec()[wk].0,
                            ) is None,
                            !is_error ==> forall|x: int, y: int, z2: int|
                                #![trigger ls[x].data_spec()[z2], ls[y].data_spec()]
                                0 <= x < a && 0 <= y < n && ls[y].lang_spec() != ls[x].lang_spec()
                                    && ls[y].is_base_spec() && 0 <= z2 < ls[x].data_spec().len()
                                    ==> assoc_get(
                                    ls[y].data_spec(),
                                    ls[x].data_spec()[z2].0,
                                ) is Some,
                            !is_error ==> forall|y: int, z2: int|
                                #![trigger ls[y].data_spec(), ls[a as int].data_spec()[z2]]
                                0 <= y < b && ls[y].lang_spec() != ls[a as int].lang_spec()
                                    && ls[y].is_base_spec() && 0 <= z2 < ls[
                                    a as int
                                ].data_spec().len() ==> assoc_get(
                                    ls[y].data_spec(),
                                    ls[a as int].data_spec()[z2].0,
                                ) is Some,
                            !is_error ==> forall|z2: int|
                                0 <= z2 < z ==> assoc_get(
                                    ls[b as int].data_spec(),
                                    (#[trigger] ls[a as int].data_spec()[z2]).0,
                                ) is Some,
                        decreases keys - z,
                    {
                        let found = Self::data_get(
                            &self.locales[b].data,
                            self.locales[a].data[z].0.as_str(),
                        );
                        if found.is_none() {
                            proof {
                                assert(ls[a as int].data_spec()[z as int].0
                                    == self.locales[a as int].data@[z as int].0@);
                            }
                            is_error = true;
                            proof {
                                wa = a as int;
                                wb = b as int;
                                wk = z as int;
                            }
                        }
                        z += 1;
                    }
                }
                proof {
                    if !is_error {
                        assert forall|y: int, z2: int|
                            #![trigger ls[y].data_spec(), ls[a as int].data_spec()[z2]]
                            0 <= y < b + 1 && ls[y].lang_spec() != ls[a as int].lang_spec()
                                && ls[y].is_base_spec() && 0 <= z2 < ls[
                                a as int
                            ].data_spec().len() implies assoc_get(
                            ls[y].data_spec(),
                            ls[a as int].data_spec()[z2].0,
                        ) is Some by {
                            if y == b as int {
                                assert(!(self.locales[b as int].lang@
                                    == self.locales[a as int].lang@) && ls[y].is_base_spec());
                            }
                        }
                    }
                }
                b += 1;
            }
            a += 1;
        }
        if is_error {
            proof {
                assert(missing_base_key(ls));
            }
            Err(HandlerError::from_str("Locales has errors."))
        } else {
            Ok(())
        }
    }
}

} // verus!
