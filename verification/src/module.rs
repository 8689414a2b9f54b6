//! The module as this core sees it: an ordered list of sections, each a
//! kind byte and a payload. Sections with the custom kind are purely
//! informational; every other kind is structural.

use vstd::prelude::*;

verus! {

/// The kind byte of the type table.
pub const TYPE_SECTION_ID: u8 = 1;

/// The kind byte of informational (custom) sections.
pub const CUSTOM_SECTION_ID: u8 = 0;

/// One section: its kind byte and its raw payload.
pub struct Section {
    pub id: u8,
    pub payload: Vec<u8>,
}

/// The mathematical content of a `Section`.
pub ghost struct SectionV {
    pub id: u8,
    pub payload: Seq<u8>,
}

impl View for Section {
    type V = SectionV;

    open spec fn view(&self) -> SectionV {
        SectionV { id: self.id, payload: self.payload@ }
    }
}

/// A structural section defines program structure; a custom section is
/// informational only.
pub open spec fn is_structural(s: SectionV) -> bool {
    s.id != CUSTOM_SECTION_ID
}

/// The ordered sections of one module.
pub struct ModuleSections {
    pub sections: Vec<Section>,
}

impl View for ModuleSections {
    type V = Seq<SectionV>;

    open spec fn view(&self) -> Seq<SectionV> {
        self.sections@.map_values(|s: Section| s@)
    }
}

/// The position of the type table: the first section whose kind byte is
/// `TYPE_SECTION_ID`, if any.
pub open spec fn type_section_index(m: Seq<SectionV>) -> Option<int>
    decreases m.len(),
{
    if m.len() == 0 {
        None
    } else if m[0].id == TYPE_SECTION_ID {
        Some(0)
    } else {
        match type_section_index(m.skip(1)) {
            Option::None => None,
            Option::Some(i) => Some(i + 1),
        }
    }
}

/// What the position means: it names a type section, nothing before it
/// is one, and `None` means the module has none at all.
pub proof fn lemma_type_section_index(m: Seq<SectionV>)
    ensures
        (match type_section_index(m) {
            Option::Some(k) => {
                &&& 0 <= k < m.len()
                &&& m[k].id == TYPE_SECTION_ID
                &&& forall|j: int| 0 <= j < k ==> #[trigger] m[j].id != TYPE_SECTION_ID
            },
            Option::None => forall|j: int|
                0 <= j < m.len() ==> #[trigger] m[j].id != TYPE_SECTION_ID,
        }),
    decreases m.len(),
{
    if m.len() > 0 && m[0].id != TYPE_SECTION_ID {
        lemma_type_section_index(m.skip(1));
        match type_section_index(m.skip(1)) {
            Option::Some(i) => {
                assert(m.skip(1)[i] == m[i + 1]);
                assert forall|j: int| 0 <= j < i + 1 implies #[trigger] m[j].id
                    != TYPE_SECTION_ID by {
                    if j > 0 {
                        assert(m.skip(1)[j - 1] == m[j]);
                    }
                }
            },
            Option::None => {
                assert forall|j: int| 0 <= j < m.len() implies #[trigger] m[j].id
                    != TYPE_SECTION_ID by {
                    if j > 0 {
                        assert(m.skip(1)[j - 1] == m[j]);
                    }
                }
            },
        }
    }
}

/// Conversely, the first position whose kind byte names a type section
/// is the type table's position.
pub proof fn lemma_type_section_index_of(m: Seq<SectionV>, k: int)
    requires
        0 <= k < m.len(),
        m[k].id == TYPE_SECTION_ID,
        forall|j: int| 0 <= j < k ==> #[trigger] m[j].id != TYPE_SECTION_ID,
    ensures
        type_section_index(m) == Some(k),
    decreases m.len(),
{
    if k > 0 {
        lemma_type_section_index_of(m.skip(1), k - 1);
    }
}

impl Section {
    /// A fresh section with the same kind and the same payload bytes.
    pub fn duplicate(&self) -> (r: Section)
        ensures
            r@ == self@,
    {
        let p = self.payload.clone();
        proof {
            assert(p@ =~= self.payload@);
        }
        Section { id: self.id, payload: p }
    }
}

impl ModuleSections {
    /// Looks the type table up: the position of the first section of
    /// the type-table kind, or `None` when the module has none.
    pub fn find_type_section(&self) -> (r: Option<usize>)
        ensures
            (match r {
                Option::Some(k) => type_section_index(self@) == Some(k as int),
                Option::None => type_section_index(self@) is None,
            }),
    {
        let mut i: usize = 0;
        while i < self.sections.len()
            invariant
                i <= self@.len(),
                forall|j: int| 0 <= j < i ==> #[trigger] self@[j].id != TYPE_SECTION_ID,
            decreases self@.len() - i,
        {
            if self.sections[i].id == TYPE_SECTION_ID {
                proof {
                    lemma_type_section_index_of(self@, i as int);
                }
                return Some(i);
            }
            i = i + 1;
        }
        proof {
            lemma_type_section_index(self@);
        }
        None
    }

    /// A fresh module with the section at `k` replaced; everything else
    /// keeps its position and content.
    pub fn with_replaced(&self, k: usize, s: Section) -> (r: ModuleSections)
        requires
            k < self@.len(),
        ensures
            r@ == self@.update(k as int, s@),
    {
        let mut out: Vec<Section> = Vec::new();
        let mut i: usize = 0;
        while i < self.sections.len()
            invariant
                i <= self@.len(),
                k < self@.len(),
                out@.len() == i,
                forall|j: int|
                    0 <= j < i ==> #[trigger] out@[j]@ == (if j == k {
                        s@
                    } else {
                        self@[j]
                    }),
            decreases self@.len() - i,
        {
            if i == k {
                out.push(s.duplicate());
            } else {
                out.push(self.sections[i].duplicate());
            }
            i = i + 1;
        }
        let r = ModuleSections { sections: out };
        proof {
            assert forall|j: int| 0 <= j < r@.len() implies r@[j] == self@.update(k as int, s@)[j]
            by {
                assert(r@[j] == r.sections@[j]@);
            }
            assert(r@ =~= self@.update(k as int, s@));
        }
        r
    }

    /// A fresh module with `s` inserted at position `k`; everything
    /// else keeps its order and content.
    pub fn with_inserted(&self, k: usize, s: Section) -> (r: ModuleSections)
        requires
            k <= self@.len(),
        ensures
            r@ == self@.insert(k as int, s@),
    {
        let mut out: Vec<Section> = Vec::new();
        let mut i: usize = 0;
        while i < self.sections.len()
            invariant
                i <= self@.len(),
                k <= self@.len(),
                out@.len() == (if i <= k {
                    i as int
                } else {
                    i + 1
                }),
                forall|j: int|
                    0 <= j < out@.len() ==> #[trigger] out@[j]@ == (if j < k {
                        self@[j]
                    } else if j == k {
                        s@
                    } else {
                        self@[j - 1]
                    }),
            decreases self@.len() - i,
        {
            if i == k {
                out.push(s.duplicate());
            }
            out.push(self.sections[i].duplicate());
            i = i + 1;
        }
        if k == self.sections.len() {
            out.push(s.duplicate());
        }
        let r = ModuleSections { sections: out };
        proof {
            self@.insert_ensures(k as int, s@);
            assert forall|j: int| 0 <= j < r@.len() implies r@[j] == self@.insert(k as int, s@)[j]
            by {
                assert(r@[j] == r.sections@[j]@);
                if j > k {
                    assert(self@.insert(k as int, s@)[j] == self@[j - 1]);
                }
            }
            assert(r@ =~= self@.insert(k as int, s@));
        }
        r
    }
}

} // verus!
