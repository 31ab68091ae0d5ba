//! The parsed form of jig, logger, trigger, test and scenario unit files.
//! Only what the rescan engine reads of them is kept: the unit's name, its
//! display strings, the jigs it works with, and — for scenarios — the
//! ordered tests it composes.

use vstd::prelude::*;

use crate::interface::{
    entries_match, entry_views, parse_unit_section, section_name, section_name_string,
    unit_file_section, RawDirective, UnitDescriptionError, UnitDescriptionErrorView,
};
use crate::unit::{
    dup_names, from_path_spec, from_str_spec, list_tokens, name_views, parse_tokens_spec, str_eq,
    UnitName, UnitNameView,
};

verus! {

/// The accumulator of the generic section fold.
pub struct DescriptionAcc {
    pub name: Seq<char>,
    pub description: Seq<char>,
    pub jigs: Seq<UnitNameView>,
    pub tests: Seq<UnitNameView>,
}

/// The generic fold starts from all defaults.
pub open spec fn description_acc_init() -> DescriptionAcc {
    DescriptionAcc {
        name: Seq::empty(),
        description: Seq::empty(),
        jigs: Seq::empty(),
        tests: Seq::empty(),
    }
}

/// How one section entry updates the accumulator. Unknown keys and grouped
/// keys are skipped; nothing is required.
pub open spec fn description_step(acc: DescriptionAcc, e: Option<(Seq<char>, Option<Seq<char>>)>)
    -> Result<DescriptionAcc, UnitDescriptionErrorView> {
    match e {
        None => Ok(acc),
        Some((k, val)) => {
            if k == "Name"@ {
                Ok(DescriptionAcc { name: match val { Some(v) => v, None => Seq::empty() }, ..acc })
            } else if k == "Description"@ {
                Ok(
                    DescriptionAcc {
                        description: match val { Some(v) => v, None => Seq::empty() },
                        ..acc
                    },
                )
            } else if k == "Jigs"@ {
                match val {
                    None => Ok(DescriptionAcc { jigs: Seq::empty(), ..acc }),
                    Some(s) => match parse_tokens_spec(list_tokens(s), "jig"@) {
                        Ok(ns) => Ok(DescriptionAcc { jigs: ns, ..acc }),
                        Err(m) => Err(UnitDescriptionErrorView::InvalidName(m)),
                    },
                }
            } else if k == "Tests"@ {
                match val {
                    None => Ok(DescriptionAcc { tests: Seq::empty(), ..acc }),
                    Some(s) => match parse_tokens_spec(list_tokens(s), "test"@) {
                        Ok(ns) => Ok(DescriptionAcc { tests: ns, ..acc }),
                        Err(m) => Err(UnitDescriptionErrorView::InvalidName(m)),
                    },
                }
            } else {
                Ok(acc)
            }
        },
    }
}

/// Folding a whole entry listing.
pub open spec fn fold_description(
    es: Seq<Option<(Seq<char>, Option<Seq<char>>)>>,
    acc: DescriptionAcc,
) -> Result<DescriptionAcc, UnitDescriptionErrorView>
    decreases es.len(),
{
    if es.len() == 0 {
        Ok(acc)
    } else {
        match description_step(acc, es[0]) {
            Err(e) => Err(e),
            Ok(acc2) => fold_description(es.drop_first(), acc2),
        }
    }
}

/// The abstract value of a generic description.
pub struct DescriptionView {
    pub id: UnitNameView,
    pub name: Seq<char>,
    pub description: Seq<char>,
    pub jigs: Seq<UnitNameView>,
    pub tests: Seq<UnitNameView>,
}

/// What a parsed unit file means, given one consistent entry listing of its
/// mandatory section.
pub open spec fn description_spec(
    path: Seq<char>,
    es: Seq<Option<(Seq<char>, Option<Seq<char>>)>>,
) -> Result<DescriptionView, UnitDescriptionErrorView> {
    match from_path_spec(path) {
        Err(m) => Err(UnitDescriptionErrorView::InvalidName(m)),
        Ok(nv) => match fold_description(es, description_acc_init()) {
            Err(e) => Err(e),
            Ok(acc) => Ok(
                DescriptionView {
                    id: nv,
                    name: acc.name,
                    description: acc.description,
                    jigs: acc.jigs,
                    tests: acc.tests,
                },
            ),
        },
    }
}

/// An in-memory representation of a non-interface unit file.
pub struct Description {
    id: UnitName,
    name: String,
    description: String,
    jigs: Vec<UnitName>,
    tests: Vec<UnitName>,
}

impl View for Description {
    type V = DescriptionView;

    closed spec fn view(&self) -> DescriptionView {
        DescriptionView {
            id: self.id@,
            name: self.name@,
            description: self.description@,
            jigs: name_views(self.jigs@),
            tests: name_views(self.tests@),
        }
    }
}

impl Description {
    /// Parses a unit file from its path and text; the mandatory section is
    /// the one named after the kind the extension gives.
    pub fn from_contents(path: &str, contents: &str) -> (r: Result<
        Description,
        UnitDescriptionError,
    >)
        ensures
            match from_path_spec(path@) {
                Err(m) => r matches Err(e) && e@ == UnitDescriptionErrorView::InvalidName(m),
                Ok(nv) => match unit_file_section(contents@, section_name(nv.kind)) {
                    Err(m) => r matches Err(e) && e@ == UnitDescriptionErrorView::Parse(m),
                    Ok(o) => match o {
                        None => r matches Err(e) && e@ == UnitDescriptionErrorView::MissingSection(
                            section_name(nv.kind),
                        ),
                        Some(dset) => exists|es: Seq<Option<(Seq<char>, Option<Seq<char>>)>>|
                            {
                                &&& #[trigger] entries_match(es, dset)
                                &&& match description_spec(path@, es) {
                                    Ok(dv) => r matches Ok(d) && d@ == dv,
                                    Err(ev) => r matches Err(e) && e@ == ev,
                                }
                            },
                    },
                },
            },
    {
        let id = match UnitName::from_path(path) {
            Ok(n) => n,
            Err(e) => {
                return Err(UnitDescriptionError::InvalidName(match e {
                    crate::unit::UnitNameError::UnrecognizedKind(s) => s,
                }));
            },
        };
        let section = section_name_string(id.kind());
        let entries = match parse_unit_section(contents, section.as_str()) {
            Err(m) => {
                return Err(UnitDescriptionError::Parse(m));
            },
            Ok(None) => {
                return Err(UnitDescriptionError::MissingSection(section));
            },
            Ok(Some(v)) => v,
        };
        let ghost es = entry_views(entries@);
        let ghost dset = match unit_file_section(contents@, section@) {
            Ok(Some(d)) => d,
            _ => Set::empty(),
        };
        proof {
            assert(entries_match(es, dset));
        }
        let mut name = String::new();
        let mut description = String::new();
        let mut jigs: Vec<UnitName> = Vec::new();
        let mut tests: Vec<UnitName> = Vec::new();
        let mut i: usize = 0;
        proof {
            assert(es.skip(0) =~= es);
            assert(name@ =~= Seq::<char>::empty());
            assert(description@ =~= Seq::<char>::empty());
            assert(name_views(jigs@) =~= Seq::<UnitNameView>::empty());
            assert(name_views(tests@) =~= Seq::<UnitNameView>::empty());
        }
        while i < entries.len()
            invariant
                i <= entries@.len(),
                es == entry_views(entries@),
                from_path_spec(path@) is Ok,
                section@ == section_name(from_path_spec(path@)->Ok_0.kind),
                dset == (match unit_file_section(contents@, section@) {
                    Ok(Some(d)) => d,
                    _ => Set::<(Seq<char>, Option<Seq<char>>)>::empty(),
                }),
                entries_match(es, dset),
                unit_file_section(contents@, section@) matches Ok(o2) && o2 is Some,
                fold_description(es, description_acc_init()) == fold_description(
                    es.skip(i as int),
                    DescriptionAcc {
                        name: name@,
                        description: description@,
                        jigs: name_views(jigs@),
                        tests: name_views(tests@),
                    },
                ),
            decreases entries@.len() - i,
        {
            let ghost old_acc = DescriptionAcc {
                name: name@,
                description: description@,
                jigs: name_views(jigs@),
                tests: name_views(tests@),
            };
            proof {
                assert(es.skip(i as int)[0] == es[i as int]);
                assert(es.skip(i as int).drop_first() =~= es.skip(i + 1));
                assert(es[i as int] == entries@[i as int]@);
            }
            match &entries[i] {
                RawDirective::Group => {},
                RawDirective::Solo(k, val) => {
                    if str_eq(k.as_str(), "Name") {
                        name = match val {
                            Some(v) => v.clone(),
                            None => String::new(),
                        };
                        proof {
                            if val is None {
                                assert(name@ =~= Seq::<char>::empty());
                            }
                        }
                    } else if str_eq(k.as_str(), "Description") {
                        description = match val {
                            Some(v) => v.clone(),
                            None => String::new(),
                        };
                        proof {
                            if val is None {
                                assert(description@ =~= Seq::<char>::empty());
                            }
                        }
                    } else if str_eq(k.as_str(), "Jigs") {
                        match val {
                            None => {
                                jigs = Vec::new();
                                proof {
                                    assert(name_views(jigs@) =~= Seq::<UnitNameView>::empty());
                                }
                            },
                            Some(s) => {
                                match UnitName::from_list(s.as_str(), "jig") {
                                    Ok(ns) => {
                                        proof {
                                            assert(forall|j: int|
                                                0 <= j < ns@.len() ==> #[trigger] name_views(ns@)[j]
                                                    == ns@[j]@);
                                            crate::unit::lemma_parse_tokens_ok(
                                                list_tokens(s@),
                                                "jig"@,
                                                name_views(ns@),
                                            );
                                        }
                                        jigs = ns;
                                    },
                                    Err(e) => {
                                        proof {
                                            let wi = choose|wi: int|
                                                {
                                                    &&& 0 <= wi < list_tokens(s@).len()
                                                    &&& (forall|j: int|
                                                        0 <= j < wi ==> #[trigger] from_str_spec(
                                                            list_tokens(s@)[j],
                                                            "jig"@,
                                                        ) is Ok)
                                                    &&& ((#[trigger] from_str_spec(
                                                        list_tokens(s@)[wi],
                                                        "jig"@,
                                                    )) matches Err(m) && m == e@)
                                                };
                                            crate::unit::lemma_parse_tokens_err(
                                                list_tokens(s@),
                                                "jig"@,
                                                wi,
                                                e@,
                                            );
                                            let ev = UnitDescriptionErrorView::InvalidName(e@);
                                            assert(description_step(old_acc, es[i as int]) == Err::<
                                                DescriptionAcc,
                                                UnitDescriptionErrorView,
                                            >(ev));
                                            assert(fold_description(es, description_acc_init())
                                                == Err::<DescriptionAcc, UnitDescriptionErrorView>(
                                                ev,
                                            ));
                                            assert(description_spec(path@, es) == Err::<
                                                DescriptionView,
                                                UnitDescriptionErrorView,
                                            >(ev));
                                        }
                                        return Err(UnitDescriptionError::InvalidName(match e {
                                            crate::unit::UnitNameError::UnrecognizedKind(m) => m,
                                        }));
                                    },
                                }
                            },
                        }
                    } else if str_eq(k.as_str(), "Tests") {
                        match val {
                            None => {
                                tests = Vec::new();
                                proof {
                                    assert(name_views(tests@) =~= Seq::<UnitNameView>::empty());
                                }
                            },
                            Some(s) => {
                                match UnitName::from_list(s.as_str(), "test") {
                                    Ok(ns) => {
                                        proof {
                                            assert(forall|j: int|
                                                0 <= j < ns@.len() ==> #[trigger] name_views(ns@)[j]
                                                    == ns@[j]@);
                                            crate::unit::lemma_parse_tokens_ok(
                                                list_tokens(s@),
                                                "test"@,
                                                name_views(ns@),
                                            );
                                        }
                                        tests = ns;
                                    },
                                    Err(e) => {
                                        proof {
                                            let wi = choose|wi: int|
                                                {
                                                    &&& 0 <= wi < list_tokens(s@).len()
                                                    &&& (forall|j: int|
                                                        0 <= j < wi ==> #[trigger] from_str_spec(
                                                            list_tokens(s@)[j],
                                                            "test"@,
                                                        ) is Ok)
                                                    &&& ((#[trigger] from_str_spec(
                                                        list_tokens(s@)[wi],
                                                        "test"@,
                                                    )) matches Err(m) && m == e@)
                                                };
                                            crate::unit::lemma_parse_tokens_err(
                                                list_tokens(s@),
                                                "test"@,
                                                wi,
                                                e@,
                                            );
                                            let ev = UnitDescriptionErrorView::InvalidName(e@);
                                            assert(description_step(old_acc, es[i as int]) == Err::<
                                                DescriptionAcc,
                                                UnitDescriptionErrorView,
                                            >(ev));
                                            assert(fold_description(es, description_acc_init())
                                                == Err::<DescriptionAcc, UnitDescriptionErrorView>(
                                                ev,
                                            ));
                                            assert(description_spec(path@, es) == Err::<
                                                DescriptionView,
                                                UnitDescriptionErrorView,
                                            >(ev));
                                        }
                                        return Err(UnitDescriptionError::InvalidName(match e {
                                            crate::unit::UnitNameError::UnrecognizedKind(m) => m,
                                        }));
                                    },
                                }
                            },
                        }
                    }
                },
            }
            proof {
                let new_acc = DescriptionAcc {
                    name: name@,
                    description: description@,
                    jigs: name_views(jigs@),
                    tests: name_views(tests@),
                };
                assert(description_step(old_acc, es[i as int]) == Ok::<
                    DescriptionAcc,
                    UnitDescriptionErrorView,
                >(new_acc));
            }
            i = i + 1;
        }
        proof {
            assert(es.skip(es.len() as int) =~= Seq::<
                Option<(Seq<char>, Option<Seq<char>>)>,
            >::empty());
        }
        let r = Description { id, name, description, jigs, tests };
        proof {
            assert(description_spec(path@, es) matches Ok(dv) && r@ == dv);
        }
        Ok(r)
    }

    pub fn id(&self) -> (r: &UnitName)
        ensures
            r@ == self@.id,
    {
        &self.id
    }

    /// True when this unit names the jig as one it works with.
    pub fn supports_jig(&self, name: &UnitName) -> (r: bool)
        ensures
            r == self@.jigs.contains(name@),
    {
        let mut i: usize = 0;
        while i < self.jigs.len()
            invariant
                i <= self.jigs@.len(),
                forall|j: int| 0 <= j < i ==> name_views(self.jigs@)[j] != name@,
            decreases self.jigs@.len() - i,
        {
            if self.jigs[i].eq_name(name) {
                proof {
                    assert(name_views(self.jigs@)[i as int] == name@);
                }
                return true;
            }
            i = i + 1;
        }
        proof {
            if self@.jigs.contains(name@) {
                let j = choose|j: int| 0 <= j < self@.jigs.len() && self@.jigs[j] == name@;
                assert(name_views(self.jigs@)[j] == name@);
            }
        }
        false
    }

    /// True when this scenario's composition uses the test.
    pub fn uses_test(&self, name: &UnitName) -> (r: bool)
        ensures
            r == self@.tests.contains(name@),
    {
        let mut i: usize = 0;
        while i < self.tests.len()
            invariant
                i <= self.tests@.len(),
                forall|j: int| 0 <= j < i ==> name_views(self.tests@)[j] != name@,
            decreases self.tests@.len() - i,
        {
            if self.tests[i].eq_name(name) {
                proof {
                    assert(name_views(self.tests@)[i as int] == name@);
                }
                return true;
            }
            i = i + 1;
        }
        proof {
            if self@.tests.contains(name@) {
                let j = choose|j: int| 0 <= j < self@.tests.len() && self@.tests[j] == name@;
                assert(name_views(self.tests@)[j] == name@);
            }
        }
        false
    }

    /// The ordered tests of a scenario's composition.
    pub fn tests(&self) -> (r: &Vec<UnitName>)
        ensures
            name_views(r@) == self@.tests,
    {
        &self.tests
    }

    pub fn jigs_len(&self) -> (r: usize)
        ensures
            r == self@.jigs.len(),
    {
        self.jigs.len()
    }

    pub fn jig_at(&self, i: usize) -> (r: &UnitName)
        requires
            i < self@.jigs.len(),
        ensures
            r@ == self@.jigs[i as int],
    {
        &self.jigs[i]
    }

    /// An identical copy of the description.
    pub fn dup(&self) -> (r: Description)
        ensures
            r@ == self@,
    {
        Description {
            id: self.id.dup(),
            name: self.name.clone(),
            description: self.description.clone(),
            jigs: dup_names(&self.jigs),
            tests: dup_names(&self.tests),
        }
    }
}

} // verus!
