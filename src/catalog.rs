use vstd::prelude::*;

verus! {

/// What the catalog knows of one file extension.
pub struct ExtensionInfo {
    pub extension: String,
    pub name: String,
    pub description: String,
    pub further_reading: String,
    pub preferred_mime: String,
    pub mime: Vec<String>,
}

/// The extension catalog, loaded once and consulted for every lookup.
pub struct Catalog {
    pub extensions: Vec<ExtensionInfo>,
}

/// `i` is the first record of `es` whose extension is exactly `ext`.
pub open spec fn is_first_match(es: Seq<ExtensionInfo>, ext: Seq<char>, i: int) -> bool {
    &&& 0 <= i < es.len()
    &&& es[i].extension@ == ext
    &&& forall|j: int| 0 <= j < i ==> es[j].extension@ != ext
}

/// Some record of `es` has exactly the extension `ext`.
pub open spec fn has_match(es: Seq<ExtensionInfo>, ext: Seq<char>) -> bool {
    exists|i: int| 0 <= i < es.len() && es[i].extension@ == ext
}

/// The display name given to an extension that the catalog does not hold.
pub open spec fn unknown_type() -> Seq<char> {
    "unknown type"@
}

/// The media types of a record besides its preferred one, in order.
pub open spec fn other_mimes(ms: Seq<String>, preferred: Seq<char>) -> Seq<Seq<char>>
    decreases ms.len(),
{
    if ms.len() == 0 {
        Seq::empty()
    } else {
        let p = other_mimes(ms.drop_last(), preferred);
        if ms.last()@ == preferred { p } else { p.push(ms.last()@) }
    }
}

/// The display name that the catalog gives `ext`: that of its first record
/// for `ext`, or "unknown type".
pub open spec fn name_for(es: Seq<ExtensionInfo>, ext: Seq<char>) -> Seq<char> {
    if has_match(es, ext) {
        es[choose|i: int| is_first_match(es, ext, i)].name@
    } else {
        unknown_type()
    }
}

proof fn lemma_first_match_unique(es: Seq<ExtensionInfo>, ext: Seq<char>, i: int, j: int)
    requires
        is_first_match(es, ext, i),
        is_first_match(es, ext, j),
    ensures
        i == j,
{
    if i < j {
        assert(es[i].extension@ != ext);
    } else if j < i {
        assert(es[j].extension@ != ext);
    }
}

impl Catalog {
    /// Index of the first record for `ext` (exact, case-sensitive match).
    pub fn position(&self, ext: &str) -> (r: Option<usize>)
        ensures
            r.is_none() <==> !has_match(self.extensions@, ext@),
            r matches Some(i) ==> is_first_match(self.extensions@, ext@, i as int),
    {
        let key = String::from_str(ext);
        let mut i: usize = 0;
        while i < self.extensions.len()
            invariant
                key@ == ext@,
                i <= self.extensions@.len(),
                forall|j: int| 0 <= j < i ==> self.extensions@[j].extension@ != ext@,
            decreases self.extensions@.len() - i,
        {
            if self.extensions[i].extension == key {
                return Some(i);
            }
            i = i + 1;
        }
        None
    }

    /// The first record for `ext` (exact, case-sensitive match), if any.
    pub fn lookup(&self, ext: &str) -> (r: Option<&ExtensionInfo>)
        ensures
            r.is_none() <==> !has_match(self.extensions@, ext@),
            r matches Some(info) ==> exists|i: int| #[trigger] is_first_match(self.extensions@, ext@, i)
                && *info == self.extensions@[i],
    {
        match self.position(ext) {
            Some(i) => {
                proof {
                    assert(is_first_match(self.extensions@, ext@, i as int));
                }
                Some(&self.extensions[i])
            },
            None => None,
        }
    }

    /// Display name of the type that `ext` stands for, or "unknown type" when
    /// the catalog has no record for it.
    pub fn display_name(&self, ext: &str) -> (r: String)
        ensures
            r@ == name_for(self.extensions@, ext@),
            !has_match(self.extensions@, ext@) ==> r@ == unknown_type(),
            forall|i: int| is_first_match(self.extensions@, ext@, i) ==> r@ == self.extensions@[i].name@,
    {
        match self.position(ext) {
            Some(i) => {
                proof {
                    let es = self.extensions@;
                    assert(has_match(es, ext@));
                    let j = choose|j: int| is_first_match(es, ext@, j);
                    lemma_first_match_unique(es, ext@, i as int, j);
                    assert forall|k: int| is_first_match(es, ext@, k) implies k == i by {
                        lemma_first_match_unique(es, ext@, i as int, k);
                    }
                }
                self.extensions[i].name.clone()
            },
            None => {
                proof { reveal_strlit("unknown type"); }
                String::from_str("unknown type")
            },
        }
    }
}

impl ExtensionInfo {
    /// The media types of this record other than the preferred one, in order.
    pub fn alternate_mimes(&self) -> (r: Vec<String>)
        ensures
            r@.len() == other_mimes(self.mime@, self.preferred_mime@).len(),
            forall|k: int| 0 <= k < r@.len() ==> #[trigger] r@[k]@ == other_mimes(self.mime@, self.preferred_mime@)[k],
    {
        let mut r: Vec<String> = Vec::new();
        let mut i: usize = 0;
        proof {
            assert(self.mime@.subrange(0, 0) =~= Seq::<String>::empty());
        }
        while i < self.mime.len()
            invariant
                i <= self.mime@.len(),
                r@.len() == other_mimes(self.mime@.subrange(0, i as int), self.preferred_mime@).len(),
                forall|k: int| 0 <= k < r@.len() ==> #[trigger] r@[k]@
                    == other_mimes(self.mime@.subrange(0, i as int), self.preferred_mime@)[k],
            decreases self.mime@.len() - i,
        {
            proof {
                let cur = self.mime@.subrange(0, i + 1);
                assert(cur.drop_last() =~= self.mime@.subrange(0, i as int));
            }
            if !(self.mime[i] == self.preferred_mime) {
                r.push(self.mime[i].clone());
            }
            i = i + 1;
        }
        proof {
            assert(self.mime@.subrange(0, i as int) =~= self.mime@);
        }
        r
    }
}

} // verus!
