//! The model catalog: searching models, grouping models by task and voices by
//! language (in the order of a `BTreeMap<String, _>`), recognising
//! text-to-speech models, and the marks shown beside voices.
use vstd::prelude::*;
use crate::sorted::{insert_ascending, strictly_ascending, texts};
use crate::text::{contains_text, is_substring, lowercase_of, occurs_at, text_equals, to_lowercase};

verus! {

/// What a search or a grouping reads of a model in the registry.
pub struct ModelSummary {
    pub id: String,
    pub family: String,
    pub task: String,
    pub description: String,
}

/// The texts of a [`ModelSummary`].
pub struct ModelSummaryView {
    pub id: Seq<char>,
    pub family: Seq<char>,
    pub task: Seq<char>,
    pub description: Seq<char>,
}

impl View for ModelSummary {
    type V = ModelSummaryView;

    open spec fn view(&self) -> ModelSummaryView {
        ModelSummaryView {
            id: self.id@,
            family: self.family@,
            task: self.task@,
            description: self.description@,
        }
    }
}

/// A model matches a query when the lower-cased query occurs in its
/// lower-cased id, family, task or description.
pub open spec fn matches_query(m: ModelSummaryView, query: Seq<char>) -> bool {
    let q = lowercase_of(query);
    ||| is_substring(q, lowercase_of(m.id))
    ||| is_substring(q, lowercase_of(m.family))
    ||| is_substring(q, lowercase_of(m.task))
    ||| is_substring(q, lowercase_of(m.description))
}

/// The positions of the models that match `query`, in order.
pub open spec fn matching_models(models: Seq<ModelSummary>, query: Seq<char>) -> Seq<int>
    decreases models.len(),
{
    if models.len() == 0 {
        seq![]
    } else if matches_query(models.last()@, query) {
        matching_models(models.drop_last(), query).push(models.len() - 1)
    } else {
        matching_models(models.drop_last(), query)
    }
}

/// Whether the lower-cased query `q` occurs in one of the lower-cased texts
/// of `model`.
fn matches_lowered(model: &ModelSummary, q: &String) -> (res: bool)
    ensures
        res == (is_substring(q@, lowercase_of(model.id@)) || is_substring(
            q@,
            lowercase_of(model.family@),
        ) || is_substring(q@, lowercase_of(model.task@)) || is_substring(
            q@,
            lowercase_of(model.description@),
        )),
{
    let id = to_lowercase(model.id.as_str());
    if contains_text(id.as_str(), q.as_str()) {
        return true;
    }
    let family = to_lowercase(model.family.as_str());
    if contains_text(family.as_str(), q.as_str()) {
        return true;
    }
    let task = to_lowercase(model.task.as_str());
    if contains_text(task.as_str(), q.as_str()) {
        return true;
    }
    let description = to_lowercase(model.description.as_str());
    contains_text(description.as_str(), q.as_str())
}

/// Whether `model` matches `query` (case is ignored in both).
pub fn model_matches(model: &ModelSummary, query: &str) -> (res: bool)
    ensures
        res == matches_query(model@, query@),
{
    let q = to_lowercase(query);
    matches_lowered(model, &q)
}

proof fn lemma_empty_occurs_everywhere(haystack: Seq<char>)
    ensures
        is_substring(Seq::<char>::empty(), haystack),
{
    assert(haystack.subrange(0, 0) =~= Seq::<char>::empty());
    assert(occurs_at(Seq::<char>::empty(), haystack, 0));
}

/// The positions, in order, of the models that match `query`; an empty query
/// lists every model.
pub fn search_models(models: &Vec<ModelSummary>, query: &str) -> (found: Vec<usize>)
    ensures
        found@.map_values(|k: usize| k as int) == matching_models(models@, query@),
        query@.len() == 0 ==> found@.map_values(|k: usize| k as int) == Seq::new(
            models.len() as nat,
            |k: int| k,
        ),
{
    let q = to_lowercase(query);
    let mut found: Vec<usize> = Vec::new();
    let mut i: usize = 0;
    while i < models.len()
        invariant
            i <= models.len(),
            q@ == lowercase_of(query@),
            query@.len() == 0 ==> q@.len() == 0,
            found@.map_values(|k: usize| k as int) == matching_models(
                models@.take(i as int),
                query@,
            ),
            query@.len() == 0 ==> found@.map_values(|k: usize| k as int) == Seq::new(
                i as nat,
                |k: int| k,
            ),
        decreases models.len() - i,
    {
        let ghost pre = models@.take(i as int);
        let ghost post = models@.take(i + 1);
        proof {
            assert(post.drop_last() =~= pre);
            assert(post.last() == models@[i as int]);
            if query@.len() == 0 {
                assert(q@ =~= Seq::<char>::empty());
                lemma_empty_occurs_everywhere(lowercase_of(models@[i as int].id@));
            }
        }
        if matches_lowered(&models[i], &q) {
            let ghost before = found@;
            found.push(i);
            proof {
                assert(found@.map_values(|k: usize| k as int) =~= before.map_values(
                    |k: usize| k as int,
                ).push(i as int));
                if query@.len() == 0 {
                    assert(found@.map_values(|k: usize| k as int) =~= Seq::new(
                        (i + 1) as nat,
                        |k: int| k,
                    ));
                }
            }
        }
        i = i + 1;
    }
    assert(models@.take(models.len() as int) =~= models@);
    found
}

/// Whether a task names text-to-speech: its lower-cased form contains
/// "tts" or "text-to-speech".
pub open spec fn is_tts(task: Seq<char>) -> bool {
    is_substring("tts"@, lowercase_of(task)) || is_substring("text-to-speech"@, lowercase_of(task))
}

/// Whether a task is text-to-speech synthesis.
pub fn is_tts_task(task: &str) -> (res: bool)
    ensures
        res == is_tts(task@),
{
    let lowered = to_lowercase(task);
    contains_text(lowered.as_str(), "tts") || contains_text(lowered.as_str(), "text-to-speech")
}

/// The positions, in order, of the keys equal to `key`.
pub open spec fn positions_of(keys: Seq<Seq<char>>, key: Seq<char>) -> Seq<int>
    decreases keys.len(),
{
    if keys.len() == 0 {
        seq![]
    } else if keys.last() == key {
        positions_of(keys.drop_last(), key).push(keys.len() - 1)
    } else {
        positions_of(keys.drop_last(), key)
    }
}

/// The entries that share a key.
pub struct KeyGroup {
    pub key: String,
    /// Positions of the entries with this key, ascending.
    pub members: Vec<usize>,
}

/// The positions, in order, of the keys equal to `key`.
fn collect_positions(keys: &Vec<String>, key: &String) -> (members: Vec<usize>)
    ensures
        members@.map_values(|k: usize| k as int) == positions_of(texts(keys@), key@),
{
    let ghost all = texts(keys@);
    let mut members: Vec<usize> = Vec::new();
    let mut i: usize = 0;
    while i < keys.len()
        invariant
            i <= keys.len(),
            all == texts(keys@),
            members@.map_values(|k: usize| k as int) == positions_of(all.take(i as int), key@),
        decreases keys.len() - i,
    {
        let ghost pre = all.take(i as int);
        let ghost post = all.take(i + 1);
        proof {
            assert(post.drop_last() =~= pre);
            assert(post.last() == keys@[i as int]@);
        }
        if text_equals(keys[i].as_str(), key.as_str()) {
            let ghost before = members@;
            members.push(i);
            proof {
                assert(members@.map_values(|k: usize| k as int) =~= before.map_values(
                    |k: usize| k as int,
                ).push(i as int));
            }
        }
        i = i + 1;
    }
    assert(all.take(keys.len() as int) =~= all);
    members
}

/// Groups entries by their keys, as a `BTreeMap<String, Vec<_>>` filled in
/// order would: one group per distinct key, the groups in ascending order of
/// their keys, and in each group the positions of its entries in order.
pub fn group_by_key(keys: &Vec<String>) -> (groups: Vec<KeyGroup>)
    ensures
        strictly_ascending(groups@.map_values(|g: KeyGroup| g.key@)),
        forall|t: Seq<char>|
            groups@.map_values(|g: KeyGroup| g.key@).contains(t) <==> texts(keys@).contains(t),
        forall|k: int|
            0 <= k < groups@.len() ==> (#[trigger] groups@[k]).members@.map_values(
                |m: usize| m as int,
            ) == positions_of(texts(keys@), groups@[k].key@),
{
    let mut distinct: Vec<String> = Vec::new();
    let mut i: usize = 0;
    while i < keys.len()
        invariant
            i <= keys.len(),
            strictly_ascending(texts(distinct@)),
            forall|t: Seq<char>|
                texts(distinct@).contains(t) <==> texts(keys@).take(i as int).contains(t),
        decreases keys.len() - i,
    {
        let ghost pre = texts(keys@).take(i as int);
        let ghost post = texts(keys@).take(i + 1);
        let ghost before = texts(distinct@);
        insert_ascending(&mut distinct, keys[i].clone());
        proof {
            assert(post =~= pre.push(keys@[i as int]@));
            assert forall|t: Seq<char>| texts(distinct@).contains(t) <==> post.contains(t) by {
                assert(texts(distinct@).contains(t) <==> (before.contains(t) || t == keys@[i as int]@));
                assert(before.contains(t) <==> pre.contains(t));
                if t == keys@[i as int]@ {
                    assert(post[i as int] == t);
                }
                if post.contains(t) {
                    let k = choose|k: int| 0 <= k < post.len() && post[k] == t;
                    if k < i {
                        assert(pre[k] == t);
                    }
                }
                if pre.contains(t) {
                    let k = choose|k: int| 0 <= k < pre.len() && pre[k] == t;
                    assert(post[k] == t);
                }
            }
        }
        i = i + 1;
    }
    assert(texts(keys@).take(keys.len() as int) =~= texts(keys@));
    let mut groups: Vec<KeyGroup> = Vec::new();
    let mut j: usize = 0;
    while j < distinct.len()
        invariant
            j <= distinct.len(),
            groups@.len() == j,
            forall|k: int| 0 <= k < j ==> (#[trigger] groups@[k]).key@ == distinct@[k]@,
            forall|k: int|
                0 <= k < j ==> (#[trigger] groups@[k]).members@.map_values(|m: usize| m as int)
                    == positions_of(texts(keys@), groups@[k].key@),
        decreases distinct.len() - j,
    {
        let members = collect_positions(keys, &distinct[j]);
        groups.push(KeyGroup { key: distinct[j].clone(), members });
        j = j + 1;
    }
    assert(groups@.map_values(|g: KeyGroup| g.key@) =~= texts(distinct@));
    groups
}

/// The language a voice is listed under: its own, or "unknown".
pub fn language_or_unknown(language: &Option<String>) -> (key: String)
    ensures
        key@ == match language {
            Some(l) => l@,
            None => "unknown"@,
        },
{
    match language {
        Some(l) => l.clone(),
        None => String::from_str("unknown"),
    }
}

/// The flag shown before a language.
pub open spec fn flag_of(language: Seq<char>) -> Seq<char> {
    if language == "en-US"@ {
        "🇺🇸"@
    } else if language == "en-GB"@ {
        "🇬🇧"@
    } else if language == "ja-JP"@ {
        "🇯🇵"@
    } else if language == "zh-CN"@ {
        "🇨🇳"@
    } else if language == "de-DE"@ {
        "🇩🇪"@
    } else if language == "fr-FR"@ {
        "🇫🇷"@
    } else if language == "es-ES"@ {
        "🇪🇸"@
    } else {
        "🌐"@
    }
}

/// The flag shown before a language.
pub fn language_flag(language: &str) -> (flag: &'static str)
    ensures
        flag@ == flag_of(language@),
{
    if text_equals(language, "en-US") {
        "🇺🇸"
    } else if text_equals(language, "en-GB") {
        "🇬🇧"
    } else if text_equals(language, "ja-JP") {
        "🇯🇵"
    } else if text_equals(language, "zh-CN") {
        "🇨🇳"
    } else if text_equals(language, "de-DE") {
        "🇩🇪"
    } else if text_equals(language, "fr-FR") {
        "🇫🇷"
    } else if text_equals(language, "es-ES") {
        "🇪🇸"
    } else {
        "🌐"
    }
}

/// The mark shown for a voice's gender.
pub open spec fn gender_mark_of(gender: Option<Seq<char>>) -> Seq<char> {
    match gender {
        Some(g) => if g == "female"@ {
            "♀"@
        } else if g == "male"@ {
            "♂"@
        } else {
            " "@
        },
        None => " "@,
    }
}

/// The mark shown for a voice's gender.
pub fn gender_mark(gender: Option<&str>) -> (mark: &'static str)
    ensures
        mark@ == gender_mark_of(
            match gender {
                Some(g) => Some(g@),
                None => None,
            },
        ),
{
    match gender {
        Some(g) => if text_equals(g, "female") {
            "♀"
        } else if text_equals(g, "male") {
            "♂"
        } else {
            " "
        },
        None => " ",
    }
}

/// A model is found by a search exactly when it matches the query, and the
/// models found come in the order of the registry.
pub proof fn law_search_finds_exactly_the_matches(models: Seq<ModelSummary>, query: Seq<char>)
    ensures
        forall|i: int|
            #![trigger matching_models(models, query).contains(i)]
            matching_models(models, query).contains(i) <==> (0 <= i < models.len()
                && matches_query(models[i]@, query)),
        forall|a: int, b: int|
            0 <= a < b < matching_models(models, query).len() ==> #[trigger] matching_models(
                models,
                query,
            )[a] < #[trigger] matching_models(models, query)[b],
    decreases models.len(),
{
    if models.len() > 0 {
        let prefix = models.drop_last();
        law_search_finds_exactly_the_matches(prefix, query);
        let mp = matching_models(prefix, query);
        let n = models.len() - 1;
        assert forall|k: int| 0 <= k < mp.len() implies mp[k] < n by {
            assert(mp.contains(mp[k]));
        }
        assert forall|i: int| 0 <= i < n implies models[i] == prefix[i] by {}
        let m = matching_models(models, query);
        assert forall|i: int| #![trigger m.contains(i)]
            m.contains(i) <==> (0 <= i < models.len() && matches_query(models[i]@, query)) by {
            if matches_query(models.last()@, query) {
                assert(m == mp.push(n));
                if m.contains(i) {
                    let k = choose|k: int| 0 <= k < m.len() && m[k] == i;
                    if k < mp.len() {
                        assert(mp.contains(i));
                    }
                }
                if 0 <= i < models.len() && matches_query(models[i]@, query) {
                    if i < n {
                        assert(mp.contains(i));
                        let k = choose|k: int| 0 <= k < mp.len() && mp[k] == i;
                        assert(m[k] == i);
                    } else {
                        assert(m[mp.len() as int] == i);
                    }
                }
            } else {
                if 0 <= i < models.len() && matches_query(models[i]@, query) {
                    assert(i != n);
                }
            }
        }
    }
}

/// Each entry lies in the group of its own key and in no other: an entry's
/// position is among the positions of a key exactly when the entry has that
/// key; and those positions ascend.
pub proof fn law_entry_in_group_of_its_key(keys: Seq<Seq<char>>, key: Seq<char>)
    ensures
        forall|i: int|
            #![trigger positions_of(keys, key).contains(i)]
            positions_of(keys, key).contains(i) <==> (0 <= i < keys.len() && keys[i] == key),
        forall|a: int, b: int|
            0 <= a < b < positions_of(keys, key).len() ==> #[trigger] positions_of(keys, key)[a]
                < #[trigger] positions_of(keys, key)[b],
    decreases keys.len(),
{
    if keys.len() > 0 {
        let prefix = keys.drop_last();
        law_entry_in_group_of_its_key(prefix, key);
        let pp = positions_of(prefix, key);
        let n = keys.len() - 1;
        assert forall|k: int| 0 <= k < pp.len() implies pp[k] < n by {
            assert(pp.contains(pp[k]));
        }
        let p = positions_of(keys, key);
        assert forall|i: int| #![trigger p.contains(i)]
            p.contains(i) <==> (0 <= i < keys.len() && keys[i] == key) by {
            if keys.last() == key {
                assert(p == pp.push(n));
                if p.contains(i) {
                    let k = choose|k: int| 0 <= k < p.len() && p[k] == i;
                    if k < pp.len() {
                        assert(pp.contains(i));
                    }
                }
                if 0 <= i < keys.len() && keys[i] == key {
                    if i < n {
                        assert(prefix[i] == key);
                        assert(pp.contains(i));
                        let k = choose|k: int| 0 <= k < pp.len() && pp[k] == i;
                        assert(p[k] == i);
                    } else {
                        assert(p[pp.len() as int] == i);
                    }
                }
            } else {
                if 0 <= i < keys.len() && keys[i] == key {
                    assert(i != n);
                    assert(prefix[i] == key);
                }
                if p.contains(i) {
                    assert(pp.contains(i));
                }
            }
        }
    }
}

/// `needle` is a contiguous run of the characters of `haystack`, written out.
proof fn lemma_substring_as_run(needle: Seq<char>, haystack: Seq<char>)
    ensures
        is_substring(needle, haystack) <==> exists|j: int, k: int|
            0 <= j && k == j + needle.len() && k <= haystack.len() && #[trigger] haystack.subrange(
                j,
                k,
            ) == needle,
{
    if is_substring(needle, haystack) {
        let j = choose|j: int| occurs_at(needle, haystack, j);
        let k = j + needle.len();
        assert(haystack.subrange(j, k) == needle);
    }
    if exists|j: int, k: int|
        0 <= j && k == j + needle.len() && k <= haystack.len() && #[trigger] haystack.subrange(j, k)
            == needle {
        let (j, k) = choose|j: int, k: int|
            0 <= j && k == j + needle.len() && k <= haystack.len() && #[trigger] haystack.subrange(
                j,
                k,
            ) == needle;
        assert(occurs_at(needle, haystack, j));
    }
}

/// A search lists a model exactly when the lower-cased query occurs, as a
/// contiguous run of characters, in the lower-cased id, family, task or
/// description of that model; the query occurring around a field is not
/// enough.
pub proof fn law_search_lists_models_containing_query(
    models: Seq<ModelSummary>,
    query: Seq<char>,
    i: int,
)
    ensures
        matching_models(models, query).contains(i) <==> (0 <= i < models.len() && ({
            let q = lowercase_of(query);
            let id = lowercase_of(models[i].id@);
            let family = lowercase_of(models[i].family@);
            let task = lowercase_of(models[i].task@);
            let description = lowercase_of(models[i].description@);
            ||| exists|j: int, k: int|
                0 <= j && k == j + q.len() && k <= id.len() && #[trigger] id.subrange(j, k) == q
            ||| exists|j: int, k: int|
                0 <= j && k == j + q.len() && k <= family.len() && #[trigger] family.subrange(j, k)
                    == q
            ||| exists|j: int, k: int|
                0 <= j && k == j + q.len() && k <= task.len() && #[trigger] task.subrange(j, k) == q
            ||| exists|j: int, k: int|
                0 <= j && k == j + q.len() && k <= description.len() && #[trigger] description.subrange(
                    j,
                    k,
                ) == q
        })),
{
    law_search_finds_exactly_the_matches(models, query);
    assert(matching_models(models, query).contains(i) <==> (0 <= i < models.len()
        && matches_query(models[i]@, query)));
    if 0 <= i < models.len() {
        let q = lowercase_of(query);
        lemma_substring_as_run(q, lowercase_of(models[i].id@));
        lemma_substring_as_run(q, lowercase_of(models[i].family@));
        lemma_substring_as_run(q, lowercase_of(models[i].task@));
        lemma_substring_as_run(q, lowercase_of(models[i].description@));
    }
}

/// A task is text-to-speech exactly when its lower-cased form contains "tts"
/// or "text-to-speech" as a contiguous run of characters.
pub proof fn law_tts_task_names_speech_synthesis(task: Seq<char>)
    ensures
        is_tts(task) <==> ({
            let t = lowercase_of(task);
            ||| exists|j: int, k: int|
                0 <= j && k == j + "tts"@.len() && k <= t.len() && #[trigger] t.subrange(j, k)
                    == "tts"@
            ||| exists|j: int, k: int|
                0 <= j && k == j + "text-to-speech"@.len() && k <= t.len() && #[trigger] t.subrange(
                    j,
                    k,
                ) == "text-to-speech"@
        }),
{
    lemma_substring_as_run("tts"@, lowercase_of(task));
    lemma_substring_as_run("text-to-speech"@, lowercase_of(task));
}

/// Only the seven listed languages get a country flag; every other language,
/// however close to one of them, gets the globe.
pub proof fn law_only_listed_languages_get_a_country_flag(language: Seq<char>)
    ensures
        language == "en-US"@ ==> flag_of(language) == "🇺🇸"@,
        language == "en-GB"@ ==> flag_of(language) == "🇬🇧"@,
        language == "ja-JP"@ ==> flag_of(language) == "🇯🇵"@,
        language == "zh-CN"@ ==> flag_of(language) == "🇨🇳"@,
        language == "de-DE"@ ==> flag_of(language) == "🇩🇪"@,
        language == "fr-FR"@ ==> flag_of(language) == "🇫🇷"@,
        language == "es-ES"@ ==> flag_of(language) == "🇪🇸"@,
        (language != "en-US"@ && language != "en-GB"@ && language != "ja-JP"@ && language
            != "zh-CN"@ && language != "de-DE"@ && language != "fr-FR"@ && language != "es-ES"@)
            ==> flag_of(language) == "🌐"@,
{
    reveal_strlit("en-US");
    reveal_strlit("en-GB");
    reveal_strlit("ja-JP");
    reveal_strlit("zh-CN");
    reveal_strlit("de-DE");
    reveal_strlit("fr-FR");
    reveal_strlit("es-ES");
    assert("en-GB"@[3] != "en-US"@[3]);
    assert("ja-JP"@[0] != "en-US"@[0]);
    assert("ja-JP"@[0] != "en-GB"@[0]);
    assert("zh-CN"@[0] != "en-US"@[0]);
    assert("zh-CN"@[0] != "en-GB"@[0]);
    assert("zh-CN"@[0] != "ja-JP"@[0]);
    assert("de-DE"@[0] != "en-US"@[0]);
    assert("de-DE"@[0] != "en-GB"@[0]);
    assert("de-DE"@[0] != "ja-JP"@[0]);
    assert("de-DE"@[0] != "zh-CN"@[0]);
    assert("fr-FR"@[0] != "en-US"@[0]);
    assert("fr-FR"@[0] != "en-GB"@[0]);
    assert("fr-FR"@[0] != "ja-JP"@[0]);
    assert("fr-FR"@[0] != "zh-CN"@[0]);
    assert("fr-FR"@[0] != "de-DE"@[0]);
    assert("es-ES"@[1] != "en-US"@[1]);
    assert("es-ES"@[1] != "en-GB"@[1]);
    assert("es-ES"@[0] != "ja-JP"@[0]);
    assert("es-ES"@[0] != "zh-CN"@[0]);
    assert("es-ES"@[0] != "de-DE"@[0]);
    assert("es-ES"@[0] != "fr-FR"@[0]);
}

/// Only "female" and "male" get a gender mark; any other gender, or none,
/// gets a blank.
pub proof fn law_only_two_genders_get_a_mark(gender: Option<Seq<char>>)
    ensures
        gender == Some("female"@) ==> gender_mark_of(gender) == "♀"@,
        gender == Some("male"@) ==> gender_mark_of(gender) == "♂"@,
        gender != Some("female"@) && gender != Some("male"@) ==> gender_mark_of(gender) == " "@,
{
    reveal_strlit("female");
    reveal_strlit("male");
    assert("male"@.len() != "female"@.len());
}

} // verus!
