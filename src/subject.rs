//! Short subject codes: a fixed table of long subject names, then the CRN index.

use vstd::prelude::*;
use crate::error::ParseError;
use crate::pattern::{captured, Pattern};
use crate::text::{owned, same_text};

verus! {

/// The short code that the fixed table gives to the long subject name `name`.
pub open spec fn table_code(name: Seq<char>) -> Option<Seq<char>> {
        if name == "Academic Learning and Success"@ {
            Some("ALSU"@)
        } else if name == "Biology"@ {
            Some("BIOL"@)
        } else if name == "Business"@ {
            Some("BUSI"@)
        } else if name == "Chemistry"@ {
            Some("CHEM"@)
        } else if name == "Communications"@ {
            Some("COMM"@)
        } else if name == "Computer Science"@ {
            Some("CSCI"@)
        } else if name == "Criminology and Justice"@ {
            Some("CRMN"@)
        } else if name == "Curriculum Studies"@ {
            Some("CURS"@)
        } else if name == "Economics"@ {
            Some("ECON"@)
        } else if name == "Education"@ {
            Some("EDUC"@)
        } else if name == "Educational Studies and Digital Technology"@ {
            Some("AEDT"@)
        } else if name == "Electrical Engineering"@ {
            Some("ELEE"@)
        } else if name == "Energy Systems and Nuclear Science"@ {
            Some("ESNS"@)
        } else if name == "Engineering"@ {
            Some("ENGR"@)
        } else if name == "Environmental Science"@ {
            Some("ENVS"@)
        } else if name == "Forensic Science"@ {
            Some("FSCI"@)
        } else if name == "Health Science"@ {
            Some("HLSC"@)
        } else if name == "Indigenous Studies"@ {
            Some("INDG"@)
        } else if name == "Information Technology"@ {
            Some("INFR"@)
        } else if name == "Integrated Mathematics and Computer Science"@ {
            Some("IMCS"@)
        } else if name == "Kinesiology"@ {
            Some("KINE"@)
        } else if name == "Legal Studies"@ {
            Some("LGLS"@)
        } else if name == "Liberal Studies"@ {
            Some("LBAT"@)
        } else if name == "Manufacturing Engineering"@ {
            Some("MANE"@)
        } else if name == "Mathematics"@ {
            Some("MATH"@)
        } else if name == "Mechanical Engineering"@ {
            Some("MECE"@)
        } else if name == "Mechatronics Engineering"@ {
            Some("METE"@)
        } else if name == "Medical Laboratory Science"@ {
            Some("MLSC"@)
        } else if name == "Neuroscience"@ {
            Some("NSCI"@)
        } else if name == "Nuclear"@ {
            Some("NUCL"@)
        } else if name == "Nursing"@ {
            Some("NURS"@)
        } else if name == "Physics"@ {
            Some("PHY"@)
        } else if name == "Political Science"@ {
            Some("POSC"@)
        } else if name == "Psychology"@ {
            Some("PSYC"@)
        } else if name == "Radiation Science"@ {
            Some("RADI"@)
        } else if name == "Science"@ {
            Some("SCIE"@)
        } else if name == "Science Co-op"@ {
            Some("SCCO"@)
        } else if name == "Science Co-op Work Term"@ {
            Some("SCCO"@)
        } else if name == "Social Science"@ {
            Some("SSCI"@)
        } else if name == "Sociology"@ {
            Some("SOCI"@)
        } else if name == "Software Engineering"@ {
            Some("SOFE"@)
        } else if name == "Statistics"@ {
            Some("STAT"@)
        } else if name == "Sustainable Energy Systems"@ {
            Some("ENSY"@)
        } else {
            None
        }
}

/// Looks `name` up in the fixed table of long subject names.
pub fn subject_code(name: &str) -> (r: Option<&'static str>)
    ensures
        match r {
            Some(c) => table_code(name@) == Some(c@),
            None => table_code(name@) is None,
        },
{
    if same_text(name, "Academic Learning and Success") {
        return Some("ALSU");
    }
    if same_text(name, "Biology") {
        return Some("BIOL");
    }
    if same_text(name, "Business") {
        return Some("BUSI");
    }
    if same_text(name, "Chemistry") {
        return Some("CHEM");
    }
    if same_text(name, "Communications") {
        return Some("COMM");
    }
    if same_text(name, "Computer Science") {
        return Some("CSCI");
    }
    if same_text(name, "Criminology and Justice") {
        return Some("CRMN");
    }
    if same_text(name, "Curriculum Studies") {
        return Some("CURS");
    }
    if same_text(name, "Economics") {
        return Some("ECON");
    }
    if same_text(name, "Education") {
        return Some("EDUC");
    }
    if same_text(name, "Educational Studies and Digital Technology") {
        return Some("AEDT");
    }
    if same_text(name, "Electrical Engineering") {
        return Some("ELEE");
    }
    if same_text(name, "Energy Systems and Nuclear Science") {
        return Some("ESNS");
    }
    if same_text(name, "Engineering") {
        return Some("ENGR");
    }
    if same_text(name, "Environmental Science") {
        return Some("ENVS");
    }
    if same_text(name, "Forensic Science") {
        return Some("FSCI");
    }
    if same_text(name, "Health Science") {
        return Some("HLSC");
    }
    if same_text(name, "Indigenous Studies") {
        return Some("INDG");
    }
    if same_text(name, "Information Technology") {
        return Some("INFR");
    }
    if same_text(name, "Integrated Mathematics and Computer Science") {
        return Some("IMCS");
    }
    if same_text(name, "Kinesiology") {
        return Some("KINE");
    }
    if same_text(name, "Legal Studies") {
        return Some("LGLS");
    }
    if same_text(name, "Liberal Studies") {
        return Some("LBAT");
    }
    if same_text(name, "Manufacturing Engineering") {
        return Some("MANE");
    }
    if same_text(name, "Mathematics") {
        return Some("MATH");
    }
    if same_text(name, "Mechanical Engineering") {
        return Some("MECE");
    }
    if same_text(name, "Mechatronics Engineering") {
        return Some("METE");
    }
    if same_text(name, "Medical Laboratory Science") {
        return Some("MLSC");
    }
    if same_text(name, "Neuroscience") {
        return Some("NSCI");
    }
    if same_text(name, "Nuclear") {
        return Some("NUCL");
    }
    if same_text(name, "Nursing") {
        return Some("NURS");
    }
    if same_text(name, "Physics") {
        return Some("PHY");
    }
    if same_text(name, "Political Science") {
        return Some("POSC");
    }
    if same_text(name, "Psychology") {
        return Some("PSYC");
    }
    if same_text(name, "Radiation Science") {
        return Some("RADI");
    }
    if same_text(name, "Science") {
        return Some("SCIE");
    }
    if same_text(name, "Science Co-op") {
        return Some("SCCO");
    }
    if same_text(name, "Science Co-op Work Term") {
        return Some("SCCO");
    }
    if same_text(name, "Social Science") {
        return Some("SSCI");
    }
    if same_text(name, "Sociology") {
        return Some("SOCI");
    }
    if same_text(name, "Software Engineering") {
        return Some("SOFE");
    }
    if same_text(name, "Statistics") {
        return Some("STAT");
    }
    if same_text(name, "Sustainable Energy Systems") {
        return Some("ENSY");
    }
    None
}

/// `v` lists every entry of `index`, and nothing else: each pair is a CRN and its code.
pub open spec fn lists_index(v: Seq<(String, String)>, index: Map<Seq<char>, Seq<char>>) -> bool {
    &&& forall|i: int| 0 <= i < v.len() ==> index.dom().contains(#[trigger] v[i].0@) && index[v[i].0@] == v[i].1@
    &&& forall|k: Seq<char>| #[trigger] index.dom().contains(k) ==> exists|i: int| 0 <= i < v.len() && #[trigger] v[i].0@ == k
}

/// The CRN index: the short subject code of each CRN named in the summary of courses.
pub struct CrnIndex {
    entries: Vec<(String, String)>,
}

impl View for CrnIndex {
    type V = Map<Seq<char>, Seq<char>>;

    closed spec fn view(&self) -> Map<Seq<char>, Seq<char>> {
        Map::new(
            |k: Seq<char>| exists|i: int| 0 <= i < self.entries.len() && self.entries[i].0@ == k,
            |k: Seq<char>| self.entries[choose|i: int| 0 <= i < self.entries.len() && self.entries[i].0@ == k].1@,
        )
    }
}

impl CrnIndex {
    /// No CRN appears twice.
    pub closed spec fn wf(&self) -> bool {
        forall|i: int, j: int| 0 <= i < j < self.entries.len() ==> self.entries[i].0@ != self.entries[j].0@
    }

    pub fn new() -> (r: CrnIndex)
        ensures
            r.wf(),
            r@ == Map::<Seq<char>, Seq<char>>::empty(),
    {
        let r = CrnIndex { entries: Vec::new() };
        assert(r@ =~= Map::<Seq<char>, Seq<char>>::empty());
        r
    }

    fn find(&self, crn: &str) -> (r: Option<usize>)
        requires
            self.wf(),
        ensures
            match r {
                Some(i) => i < self.entries.len() && self.entries[i as int].0@ == crn@,
                None => forall|i: int| 0 <= i < self.entries.len() ==> self.entries[i].0@ != crn@,
            },
    {
        let mut i: usize = 0;
        while i < self.entries.len()
            invariant
                i <= self.entries.len(),
                forall|j: int| 0 <= j < i ==> self.entries[j].0@ != crn@,
            decreases self.entries.len() - i,
        {
            if same_text(self.entries[i].0.as_str(), crn) {
                return Some(i);
            }
            i = i + 1;
        }
        None
    }

    /// Records that `crn` belongs to subject `code`, replacing an earlier entry.
    pub fn insert(&mut self, crn: &str, code: &str)
        requires
            old(self).wf(),
        ensures
            final(self).wf(),
            final(self)@ == old(self)@.insert(crn@, code@),
    {
        let ghost prev = self@;
        let ghost mut w: int = 0;
        match self.find(crn) {
            Some(i) => {
                self.entries.set(i, (owned(crn), owned(code)));
                proof { w = i as int; }
                assert forall|j: int| 0 <= j < self.entries.len() && self.entries[j].0@ == crn@ implies j == i by {}
            }
            None => {
                self.entries.push((owned(crn), owned(code)));
                proof { w = self.entries.len() - 1; }
            }
        }
        assert(self.entries[w].0@ == crn@ && self.entries[w].1@ == code@);
        proof {
            let n = self.entries.len();
            assert forall|k: Seq<char>| #[trigger] self@.dom().contains(k) == prev.insert(crn@, code@).dom().contains(k) by {
                if k != crn@ {
                    if prev.dom().contains(k) {
                        let i = choose|i: int| 0 <= i < old(self).entries.len() && old(self).entries[i].0@ == k;
                        assert(self.entries[i].0@ == k);
                    }
                } else {
                    assert(self.entries[w].0@ == k);
                }
            }
            assert forall|k: Seq<char>| #[trigger] self@.dom().contains(k) implies self@[k] == prev.insert(crn@, code@)[k] by {
                let i = choose|i: int| 0 <= i < self.entries.len() && self.entries[i].0@ == k;
                if k != crn@ {
                    let j = choose|j: int| 0 <= j < old(self).entries.len() && old(self).entries[j].0@ == k;
                    assert(self.entries[j] == old(self).entries[j]);
                    assert(i == j);
                }
            }
            assert(self@ =~= prev.insert(crn@, code@));
        }
    }

    /// The subject code recorded for `crn`.
    pub fn get(&self, crn: &str) -> (r: Option<String>)
        requires
            self.wf(),
        ensures
            match r {
                Some(c) => self@.dom().contains(crn@) && self@[crn@] == c@,
                None => !self@.dom().contains(crn@),
            },
    {
        match self.find(crn) {
            Some(i) => {
                let ghost k = crn@;
                assert(self@.dom().contains(k));
                proof {
                    let j = choose|j: int| 0 <= j < self.entries.len() && self.entries[j].0@ == k;
                    assert(i == j);
                }
                Some(self.entries[i].1.clone())
            }
            None => None,
        }
    }

    /// The (CRN, code) pairs, in the order they were first recorded.
    pub closed spec fn entry_list(&self) -> Seq<(String, String)> {
        self.entries@
    }

    /// The entries, for diagnostics.
    pub fn entries(&self) -> (r: Vec<(String, String)>)
        requires
            self.wf(),
        ensures
            lists_index(r@, self@),
            r.len() == self.entry_list().len(),
            forall|i: int| 0 <= i < r.len() ==> #[trigger] r[i].0@ == self.entry_list()[i].0@ && r[i].1@ == self.entry_list()[i].1@,
    {
        let mut r: Vec<(String, String)> = Vec::new();
        let mut i: usize = 0;
        while i < self.entries.len()
            invariant
                i <= self.entries.len(),
                r.len() == i,
                forall|j: int| 0 <= j < i ==> #[trigger] r[j].0@ == self.entries[j].0@ && r[j].1@ == self.entries[j].1@,
            decreases self.entries.len() - i,
        {
            r.push((self.entries[i].0.clone(), self.entries[i].1.clone()));
            i = i + 1;
        }
        proof {
            assert forall|j: int| 0 <= j < r.len() implies self@.dom().contains(#[trigger] r[j].0@) && self@[r[j].0@] == r[j].1@ by {
                let k = r[j].0@;
                assert(self.entries[j].0@ == k);
                let c = choose|c: int| 0 <= c < self.entries.len() && self.entries[c].0@ == k;
                assert(c == j);
            }
            assert forall|k: Seq<char>| #[trigger] self@.dom().contains(k) implies exists|j: int| 0 <= j < r.len() && #[trigger] r[j].0@ == k by {
                let c = choose|c: int| 0 <= c < self.entries.len() && self.entries[c].0@ == k;
                assert(r[c].0@ == k);
            }
        }
        r
    }
}

/// How a subject's short code is found: the fixed table first, then the CRN index
/// through the CRN that the class's CRN line holds.
pub open spec fn spec_resolve(subject: Seq<char>, crn_line: Seq<char>, crn_pattern: Seq<char>, index: Map<Seq<char>, Seq<char>>) -> Option<Seq<char>> {
    match table_code(subject) {
        Some(c) => Some(c),
        None => match captured(crn_pattern, crn_line, "crn"@) {
            Some(crn) => if index.dom().contains(crn) { Some(index[crn]) } else { None },
            None => None,
        },
    }
}

/// The short code of `subject`; `UnknownSubject` where neither the table nor the
/// CRN index knows it.
pub fn resolve_subject(subject: &str, crn_line: &str, crn_pattern: &Pattern, index: &CrnIndex) -> (r: Result<String, ParseError>)
    requires
        index.wf(),
    ensures
        match spec_resolve(subject@, crn_line@, crn_pattern.source(), index@) {
            Some(c) => r matches Ok(s) && s@ == c,
            None => r matches Err(ParseError::UnknownSubject { subject: s, known_crns: k }) && s@ == subject@ && lists_index(k@, index@),
        },
{
    if let Some(c) = subject_code(subject) {
        return Ok(owned(c));
    }
    let names: Vec<&str> = vec!["crn"];
    if let Some(groups) = crn_pattern.captures(crn_line, &names) {
        if let Some(crn) = &groups[0] {
            if let Some(code) = index.get(crn.as_str()) {
                return Ok(code);
            }
        }
    }
    Err(ParseError::UnknownSubject { subject: owned(subject), known_crns: index.entries() })
}

} // verus!
