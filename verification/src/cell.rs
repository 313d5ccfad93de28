//! Cell values and the tagged-variant projection.
//!
//! A cell of the store holds either nothing, a plain document, or a
//! tagged-variant document: a value whose shape is an object with exactly one
//! key, the variant tag, mapping to that variant's payload.  Splitting such a
//! value into one nullable column per variant is a pure mapping from a cell
//! to one optional payload per known tag.

use vstd::prelude::*;

verus! {

/// The known variant tags of a tagged-variant document.
#[derive(Clone, Copy, Debug, PartialEq, Eq, Structural)]
pub enum VariantTag {
    Show,
    Podcast,
    Anime,
    Manga,
}

/// One cell of a row.
///
/// `Tagged(t, p)` stands for a document that is an object with the single
/// known key `t` and payload text `p`.  `Doc` stands for any other document
/// (a plain payload, or a value from which no known tag can be read — a
/// malformed or unknown-tagged value).
#[derive(Clone, Debug, PartialEq, Eq)]
pub enum CellValue {
    Null,
    Doc(String),
    Tagged(VariantTag, String),
}

/// Mathematical model of a cell: payload text is a character sequence.
pub enum CellModel {
    Null,
    Doc(Seq<char>),
    Tagged(VariantTag, Seq<char>),
}

impl View for CellValue {
    type V = CellModel;

    open spec fn view(&self) -> CellModel {
        match self {
            CellValue::Null => CellModel::Null,
            CellValue::Doc(s) => CellModel::Doc(s@),
            CellValue::Tagged(t, s) => CellModel::Tagged(*t, s@),
        }
    }
}

/// The payload that splitting cell `c` assigns to the column of tag `t`:
/// the cell's payload when the cell is tagged exactly `t`, nothing otherwise.
pub open spec fn split_for_tag(c: CellModel, t: VariantTag) -> Option<Seq<char>> {
    match c {
        CellModel::Tagged(tag, payload) => if tag == t {
            Some(payload)
        } else {
            None
        },
        _ => None,
    }
}

/// The projection of one legacy cell onto the four variant columns.
#[derive(Clone, Debug, PartialEq, Eq)]
pub struct SplitCell {
    pub show: Option<String>,
    pub podcast: Option<String>,
    pub anime: Option<String>,
    pub manga: Option<String>,
}

/// Model of a [`SplitCell`].
pub struct SplitModel {
    pub show: Option<Seq<char>>,
    pub podcast: Option<Seq<char>>,
    pub anime: Option<Seq<char>>,
    pub manga: Option<Seq<char>>,
}

impl View for SplitCell {
    type V = SplitModel;

    open spec fn view(&self) -> SplitModel {
        SplitModel {
            show: match self.show {
                Some(ref s) => Some(s@),
                None => None,
            },
            podcast: match self.podcast {
                Some(ref s) => Some(s@),
                None => None,
            },
            anime: match self.anime {
                Some(ref s) => Some(s@),
                None => None,
            },
            manga: match self.manga {
                Some(ref s) => Some(s@),
                None => None,
            },
        }
    }
}

/// The model-level split of a cell: one optional payload per known tag.
pub open spec fn split_model(c: CellModel) -> SplitModel {
    SplitModel {
        show: split_for_tag(c, VariantTag::Show),
        podcast: split_for_tag(c, VariantTag::Podcast),
        anime: split_for_tag(c, VariantTag::Anime),
        manga: split_for_tag(c, VariantTag::Manga),
    }
}

/// Projects one legacy cell onto the four variant columns: the column whose
/// tag matches receives the payload, every other column receives nothing.
/// A null, plain, malformed or unknown-tagged cell yields nothing for every
/// column.
pub fn split_cell(c: &CellValue) -> (r: SplitCell)
    ensures
        r@.show == split_for_tag(c@, VariantTag::Show),
        r@.podcast == split_for_tag(c@, VariantTag::Podcast),
        r@.anime == split_for_tag(c@, VariantTag::Anime),
        r@.manga == split_for_tag(c@, VariantTag::Manga),
{
    let mut r = SplitCell { show: None, podcast: None, anime: None, manga: None };
    match c {
        CellValue::Tagged(VariantTag::Show, p) => {
            r.show = Some(p.clone());
        },
        CellValue::Tagged(VariantTag::Podcast, p) => {
            r.podcast = Some(p.clone());
        },
        CellValue::Tagged(VariantTag::Anime, p) => {
            r.anime = Some(p.clone());
        },
        CellValue::Tagged(VariantTag::Manga, p) => {
            r.manga = Some(p.clone());
        },
        _ => {},
    }
    r
}

/// At most one variant column receives a payload from any one cell.
pub proof fn lemma_split_at_most_one(c: CellModel, t1: VariantTag, t2: VariantTag)
    requires
        t1 != t2,
    ensures
        split_for_tag(c, t1) is Some ==> split_for_tag(c, t2) is None,
{
}

} // verus!
