use vstd::prelude::*;

use crate::folder::Folderable;

verus! {

/// A pictogram, filed in a folder or at the top level, found by its
/// comma-separated tags.
#[derive(Clone, Debug)]
pub struct Picto {
    pub id: i32,
    pub folder_id: Option<i32>,
    pub tags: String,
    pub url: String,
}

impl Folderable for Picto {
    open spec fn folder_of(&self) -> Option<i32> {
        self.folder_id
    }

    fn folder_id(&self) -> (r: Option<i32>) {
        self.folder_id
    }
}

/// What a tag search finds: the positions of the pictograms whose tags hold the
/// pattern, in catalogue order, and, when there is none, a close tag to try.
#[derive(Clone, Debug)]
pub struct PictoSearch {
    pub pictos: Vec<usize>,
    pub suggestion: Option<String>,
}

/// The Damerau-Levenshtein distance between two texts, counted in characters.
pub uninterp spec fn edit_distance(a: Seq<char>, b: Seq<char>) -> nat;

/// Relies on `strsim::damerau_levenshtein`: the Damerau-Levenshtein distance
/// between the characters of `a` and those of `b`.
#[verifier::external_body]
fn distance(a: &str, b: &str) -> (r: usize)
    ensures
        r as nat == edit_distance(a@, b@),
{
    strsim::damerau_levenshtein(a, b)
}

/// `needle` occurs in `hay` as a run of consecutive characters.
pub open spec fn is_infix(needle: Seq<char>, hay: Seq<char>) -> bool {
    exists|i: int| 0 <= i <= hay.len() - needle.len() && #[trigger] hay.subrange(i, i + needle.len()) == needle
}

/// Relies on `str::contains` with a `&str` pattern: whether `needle` occurs in
/// `hay`.
#[verifier::external_body]
fn holds_text(hay: &str, needle: &str) -> (r: bool)
    ensures
        r == is_infix(needle@, hay@),
{
    hay.contains(needle)
}

/// The pieces of a text between its commas.
pub uninterp spec fn comma_fields(s: Seq<char>) -> Seq<Seq<char>>;

/// Relies on `str::split` with the pattern `','`: the pieces of `s` between its
/// commas, in order, at least one, empty ones kept.
#[verifier::external_body]
fn split_commas(s: &str) -> (r: Vec<String>)
    ensures
        r@.len() == comma_fields(s@).len(),
        forall|i: int| 0 <= i < r@.len() ==> #[trigger] r@[i]@ == comma_fields(s@)[i],
        r@.len() >= 1,
{
    s.split(',').map(|t| t.to_owned()).collect()
}

/// The tags of the first `n` pictograms, in order.
pub open spec fn tags_upto(ps: Seq<Picto>, n: int) -> Seq<Seq<char>>
    decreases n,
{
    if n <= 0 {
        Seq::empty()
    } else {
        tags_upto(ps, n - 1) + comma_fields(ps[n - 1].tags@)
    }
}

/// The tags of all pictograms, in order.
pub open spec fn all_tags(ps: Seq<Picto>) -> Seq<Seq<char>> {
    tags_upto(ps, ps.len() as int)
}

/// The positions among the first `n` pictograms whose tags hold `pattern`.
pub open spec fn matches_upto(ps: Seq<Picto>, pattern: Seq<char>, n: int) -> Seq<usize>
    decreases n,
{
    if n <= 0 {
        Seq::empty()
    } else if is_infix(pattern, ps[n - 1].tags@) {
        matches_upto(ps, pattern, n - 1).push((n - 1) as usize)
    } else {
        matches_upto(ps, pattern, n - 1)
    }
}

/// Scores below this are close enough for a suggestion.
pub const SUGGESTION_LIMIT: usize = 2;

/// Among the first `n` scores, `k` is below the limit, none is lower, and every
/// one before `k` is higher.
pub open spec fn closest_among(scores: Seq<usize>, k: int, n: int) -> bool {
    &&& 0 <= k < n <= scores.len()
    &&& scores[k] < SUGGESTION_LIMIT
    &&& forall|j: int| 0 <= j < n ==> scores[k] <= #[trigger] scores[j]
    &&& forall|j: int| 0 <= j < k ==> scores[k] < #[trigger] scores[j]
}

/// The first position with the lowest score, if that score is below the limit.
pub open spec fn closest(scores: Seq<usize>) -> Option<int> {
    if exists|k: int| closest_among(scores, k, scores.len() as int) {
        Some(choose|k: int| closest_among(scores, k, scores.len() as int))
    } else {
        None
    }
}

/// The suggestion made from tags and their scores: the closest tag, unless it
/// is empty.
pub open spec fn suggestion_spec(tags: Seq<Seq<char>>, scores: Seq<usize>) -> Option<Seq<char>> {
    match closest(scores) {
        Some(k) => if tags[k].len() == 0 { None } else { Some(tags[k]) },
        None => None,
    }
}

/// The view of an optional text.
pub open spec fn opt_view(s: Option<String>) -> Option<Seq<char>> {
    match s {
        Some(t) => Some(t@),
        None => None,
    }
}

proof fn lemma_closest_unique(scores: Seq<usize>, k: int, m: int)
    requires
        closest_among(scores, k, scores.len() as int),
        closest_among(scores, m, scores.len() as int),
    ensures
        k == m,
{
    if k < m {
        assert(scores[m] < scores[k]);
        assert(scores[m] <= scores[k]);
        assert(scores[k] <= scores[m]);
    } else if m < k {
        assert(scores[k] < scores[m]);
        assert(scores[k] <= scores[m]);
    }
}

/// The tag to suggest, given each tag's score against the pattern: the first
/// tag with the lowest score, when that score is below the limit and the tag
/// is not empty.
pub fn suggestion_from(tags: &Vec<String>, scores: &Vec<usize>) -> (r: Option<String>)
    requires
        tags@.len() == scores@.len(),
    ensures
        opt_view(r) == suggestion_spec(tags@.map_values(|t: String| t@), scores@),
{
    let mut best: Option<usize> = None;
    let mut i: usize = 0;
    while i < scores.len()
        invariant
            0 <= i <= scores.len(),
            match best {
                None => forall|j: int| 0 <= j < i ==> #[trigger] scores@[j] >= SUGGESTION_LIMIT,
                Some(k) => closest_among(scores@, k as int, i as int),
            },
        decreases scores.len() - i,
    {
        let s = scores[i];
        match best {
            None => {
                if s < SUGGESTION_LIMIT {
                    best = Some(i);
                }
            },
            Some(k) => {
                if s < scores[k] {
                    best = Some(i);
                }
            },
        }
        i = i + 1;
    }
    let ghost views = tags@.map_values(|t: String| t@);
    match best {
        None => {
            assert(!exists|k: int| closest_among(scores@, k, scores@.len() as int));
            None
        },
        Some(k) => {
            let ghost m = choose|m: int| closest_among(scores@, m, scores@.len() as int);
            proof {
                lemma_closest_unique(scores@, k as int, m);
                assert(views[k as int] == tags@[k as int]@);
            }
            if tags[k].as_str().is_empty() {
                None
            } else {
                Some(tags[k].clone())
            }
        },
    }
}

/// The score of each tag against a search pattern.
pub open spec fn scores_of(pattern: Seq<char>, tags: Seq<Seq<char>>) -> Seq<usize> {
    tags.map_values(|t: Seq<char>| edit_distance(pattern, t) as usize)
}

/// Searches the pictograms by tag: those whose tags hold `pattern`, in order;
/// when none does, the closest of all their tags is offered instead, if it is
/// within one edit of the pattern.
pub fn search(pictos: &Vec<Picto>, pattern: &str) -> (r: PictoSearch)
    ensures
        r.pictos@ == matches_upto(pictos@, pattern@, pictos@.len() as int),
        r.pictos@.len() > 0 ==> r.suggestion is None,
        r.pictos@.len() == 0 ==> opt_view(r.suggestion) == suggestion_spec(
            all_tags(pictos@),
            scores_of(pattern@, all_tags(pictos@)),
        ),
{
    let mut found: Vec<usize> = Vec::new();
    let mut i: usize = 0;
    while i < pictos.len()
        invariant
            0 <= i <= pictos.len(),
            found@ == matches_upto(pictos@, pattern@, i as int),
        decreases pictos.len() - i,
    {
        if holds_text(pictos[i].tags.as_str(), pattern) {
            found.push(i);
        }
        i = i + 1;
    }
    if found.len() > 0 {
        return PictoSearch { pictos: found, suggestion: None };
    }
    let mut tags: Vec<String> = Vec::new();
    let mut scores: Vec<usize> = Vec::new();
    let mut i: usize = 0;
    while i < pictos.len()
        invariant
            0 <= i <= pictos.len(),
            tags@.len() == scores@.len(),
            tags@.map_values(|t: String| t@) == tags_upto(pictos@, i as int),
            scores@ == scores_of(pattern@, tags_upto(pictos@, i as int)),
        decreases pictos.len() - i,
    {
        let fields = split_commas(pictos[i].tags.as_str());
        let ghost before = tags_upto(pictos@, i as int);
        let ghost pieces = comma_fields(pictos@[i as int].tags@);
        let mut j: usize = 0;
        while j < fields.len()
            invariant
                0 <= i < pictos.len(),
                0 <= j <= fields.len(),
                fields@.len() == pieces.len(),
                forall|k: int| 0 <= k < fields@.len() ==> #[trigger] fields@[k]@ == pieces[k],
                tags@.len() == scores@.len(),
                tags@.map_values(|t: String| t@) == before + pieces.take(j as int),
                scores@ == scores_of(pattern@, before + pieces.take(j as int)),
            decreases fields.len() - j,
        {
            let tag = fields[j].clone();
            let score = distance(pattern, tag.as_str());
            proof {
                assert(pieces.take(j as int + 1) =~= pieces.take(j as int).push(pieces[j as int]));
            }
            let ghost old_tags = tags@;
            let ghost old_scores = scores@;
            tags.push(tag);
            scores.push(score);
            j = j + 1;
            proof {
                assert(tags@.map_values(|t: String| t@) =~= old_tags.map_values(|t: String| t@).push(pieces[j - 1]));
                assert(scores@ =~= old_scores.push(score));
                assert(scores@ =~= scores_of(pattern@, before + pieces.take(j as int)));
            }
        }
        proof {
            assert(pieces.take(j as int) =~= pieces);
        }
        i = i + 1;
    }
    let suggestion = suggestion_from(&tags, &scores);
    PictoSearch { pictos: found, suggestion }
}

} // verus!
