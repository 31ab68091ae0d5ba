//! Unit descriptions parsed from unit files, and the Interface runtime
//! object. The INI-style file format itself is read by an outside parser;
//! everything decided from what it returns is verified here.

use vstd::prelude::*;

use crate::config::{resolve_wd, Config};
use crate::protocol::{render_spec, string_views, ManagerStatusMessage};
use crate::strutil::lower_seq;
use crate::strutil::lower_string;
use crate::unit::{
    from_path_spec, from_str_spec, kind_name, last_pos, list_tokens, name_views, dup_names,
    parse_tokens_spec, str_eq, UnitKind, UnitName, UnitNameView,
};

verus! {

/// The wire format an interface child speaks.
#[derive(Clone, Copy, PartialEq, Eq, Structural, Debug)]
pub enum InterfaceFormat {
    Text,
    Json,
}

/// The abstract value of a unit-file error.
pub enum UnitDescriptionErrorView {
    MissingSection(Seq<char>),
    MissingValue(Seq<char>, Seq<char>),
    InvalidValue(Seq<char>, Seq<char>, Seq<char>, Seq<Seq<char>>),
    Parse(Seq<char>),
    InvalidName(Seq<char>),
}

/// Why a unit file was rejected: its mandatory section is missing, a
/// required key has no value, an enumerated key has a value outside its
/// choices, the file does not parse, or a name in it has an unknown kind.
#[derive(Debug)]
pub enum UnitDescriptionError {
    MissingSection(String),
    MissingValue(String, String),
    InvalidValue(String, String, String, Vec<String>),
    Parse(String),
    InvalidName(String),
}

impl View for UnitDescriptionError {
    type V = UnitDescriptionErrorView;

    open spec fn view(&self) -> UnitDescriptionErrorView {
        match self {
            UnitDescriptionError::MissingSection(s) => UnitDescriptionErrorView::MissingSection(s@),
            UnitDescriptionError::MissingValue(s, k) => UnitDescriptionErrorView::MissingValue(
                s@,
                k@,
            ),
            UnitDescriptionError::InvalidValue(s, k, v, cs) => UnitDescriptionErrorView::InvalidValue(
                s@,
                k@,
                v@,
                string_views(cs@),
            ),
            UnitDescriptionError::Parse(m) => UnitDescriptionErrorView::Parse(m@),
            UnitDescriptionError::InvalidName(m) => UnitDescriptionErrorView::InvalidName(m@),
        }
    }
}

/// The reason rendered into a `LoadFailed` status.
pub open spec fn desc_error_msg(e: UnitDescriptionErrorView) -> Seq<char> {
    match e {
        UnitDescriptionErrorView::MissingSection(s) => "missing section "@ + s,
        UnitDescriptionErrorView::MissingValue(s, k) => "missing value "@ + s + "/"@ + k,
        UnitDescriptionErrorView::InvalidValue(s, k, v, _) => "invalid value "@ + v + " for "@ + s
            + "/"@ + k,
        UnitDescriptionErrorView::Parse(m) => "parse error: "@ + m,
        UnitDescriptionErrorView::InvalidName(m) => "unrecognized unit kind "@ + m,
    }
}

impl UnitDescriptionError {
    /// A human-readable reason, broadcast verbatim with load failures.
    pub fn message(&self) -> (r: String)
        ensures
            r@ == desc_error_msg(self@),
    {
        match self {
            UnitDescriptionError::MissingSection(s) => String::from_str("missing section ").concat(
                s.as_str(),
            ),
            UnitDescriptionError::MissingValue(s, k) => String::from_str("missing value ").concat(
                s.as_str(),
            ).concat("/").concat(k.as_str()),
            UnitDescriptionError::InvalidValue(s, k, v, _) => String::from_str(
                "invalid value ",
            ).concat(v.as_str()).concat(" for ").concat(s.as_str()).concat("/").concat(k.as_str()),
            UnitDescriptionError::Parse(m) => String::from_str("parse error: ").concat(m.as_str()),
            UnitDescriptionError::InvalidName(m) => String::from_str(
                "unrecognized unit kind ",
            ).concat(m.as_str()),
        }
    }
}

/// One entry of a unit file section, as the outside parser reports it.
pub enum RawDirective {
    /// A key that appears once in the file, with its optional value.
    Solo(String, Option<String>),
    /// A key that appears several times; such keys carry no single value and
    /// are skipped.
    Group,
}

impl View for RawDirective {
    type V = Option<(Seq<char>, Option<Seq<char>>)>;

    open spec fn view(&self) -> Option<(Seq<char>, Option<Seq<char>>)> {
        match self {
            RawDirective::Solo(k, v) => Some(
                (
                    k@,
                    match v {
                        Some(s) => Some(s@),
                        None => None,
                    },
                ),
            ),
            RawDirective::Group => None,
        }
    }
}

/// The views of a vector of directives.
pub open spec fn entry_views(v: Seq<RawDirective>) -> Seq<Option<(Seq<char>, Option<Seq<char>>)>> {
    v.map_values(|d: RawDirective| d@)
}

/// What the outside unit-file parser yields for one section of a file:
/// a parse error, no such section, or the set of its single-valued entries,
/// each key at most once. The set is a function of the file text alone; only
/// the order in which entries are listed varies.
pub uninterp spec fn unit_file_section(contents: Seq<char>, section: Seq<char>) -> Result<
    Option<Set<(Seq<char>, Option<Seq<char>>)>>,
    Seq<char>,
>;

/// Two solo entries never share a key.
pub open spec fn solo_keys_differ(
    a: Option<(Seq<char>, Option<Seq<char>>)>,
    b: Option<(Seq<char>, Option<Seq<char>>)>,
) -> bool {
    match (a, b) {
        (Some(x), Some(y)) => x.0 != y.0,
        _ => true,
    }
}

/// Whether a solo entry belongs to the set.
pub open spec fn entry_in_set(
    e: Option<(Seq<char>, Option<Seq<char>>)>,
    dset: Set<(Seq<char>, Option<Seq<char>>)>,
) -> bool {
    match e {
        Some(kv) => dset.contains(kv),
        None => true,
    }
}

/// An entry listing is consistent with a section set when its solo entries
/// are exactly the set's members, each key once.
pub open spec fn entries_match(
    es: Seq<Option<(Seq<char>, Option<Seq<char>>)>>,
    dset: Set<(Seq<char>, Option<Seq<char>>)>,
) -> bool {
    &&& forall|i: int| 0 <= i < es.len() ==> entry_in_set(#[trigger] es[i], dset)
    &&& forall|kv: (Seq<char>, Option<Seq<char>>)|
        #[trigger] dset.contains(kv) ==> es.contains(Some(kv))
    &&& forall|i: int, j: int| 0 <= i < j < es.len() ==> solo_keys_differ(es[i], es[j])
}

/// Relies on systemd_parser::parse_string, SystemdUnit::has_category and
/// SystemdUnit::lookup_by_category: the file parses to a table of directives
/// keyed by directive name, each key once; a section's entries come back in
/// no fixed order, so the result is matched against the named section set
/// entry for entry.
#[verifier::external_body]
pub(crate) fn parse_unit_section(contents: &str, section: &str) -> (r: Result<
    Option<Vec<RawDirective>>,
    String,
>)
    ensures
        match r {
            Err(e) => unit_file_section(contents@, section@) matches Err(m) && e@ == m,
            Ok(None) => unit_file_section(contents@, section@) matches Ok(o) && o is None,
            Ok(Some(v)) => unit_file_section(contents@, section@) matches Ok(o) && o matches Some(
                dset,
            ) && entries_match(entry_views(v@), dset),
        },
{
    let unit = match systemd_parser::parse_string(contents) {
        Ok(u) => u,
        Err(e) => return Err(format!("{}", e)),
    };
    if !unit.has_category(section) {
        return Ok(None);
    }
    let entries = unit.lookup_by_category(section).into_iter().map(|e| match e {
        systemd_parser::items::DirectiveEntry::Solo(d) => {
            RawDirective::Solo(d.key().to_owned(), d.value().map(|v| v.to_owned()))
        },
        systemd_parser::items::DirectiveEntry::Many(_) => RawDirective::Group,
    }).collect();
    Ok(Some(entries))
}

/// The mandatory section of each unit kind's file.
pub open spec fn section_name(k: UnitKind) -> Seq<char> {
    match k {
        UnitKind::Internal => "Internal"@,
        UnitKind::Jig => "Jig"@,
        UnitKind::Interface => "Interface"@,
        UnitKind::Logger => "Logger"@,
        UnitKind::Trigger => "Trigger"@,
        UnitKind::Test => "Test"@,
        UnitKind::Scenario => "Scenario"@,
    }
}

pub fn section_name_string(k: UnitKind) -> (r: String)
    ensures
        r@ == section_name(k),
{
    match k {
        UnitKind::Internal => String::from_str("Internal"),
        UnitKind::Jig => String::from_str("Jig"),
        UnitKind::Interface => String::from_str("Interface"),
        UnitKind::Logger => String::from_str("Logger"),
        UnitKind::Trigger => String::from_str("Trigger"),
        UnitKind::Test => String::from_str("Test"),
        UnitKind::Scenario => String::from_str("Scenario"),
    }
}

/// The directory of a unit file: everything before the last slash.
pub open spec fn parent_dir(path: Seq<char>) -> Seq<char> {
    if last_pos(path, '/') < 0 {
        Seq::<char>::empty()
    } else {
        path.take(last_pos(path, '/'))
    }
}

fn parent_dir_exec(path: &str) -> (r: String)
    ensures
        r@ == parent_dir(path@),
{
    let raw = crate::strutil::str_chars(path);
    match crate::unit::find_last(&raw, '/') {
        Some(i) => {
            let v = crate::strutil::subvec(&raw, 0, i);
            crate::strutil::chars_string(&v)
        },
        None => String::new(),
    }
}

/// The accumulator of the interface-section fold.
pub struct InterfaceAcc {
    pub name: Seq<char>,
    pub description: Seq<char>,
    pub jigs: Seq<UnitNameView>,
    pub exec_start: Option<Seq<char>>,
    pub format: InterfaceFormat,
    pub working_directory: Option<Seq<char>>,
}

/// The interface fold starts from all defaults.
pub open spec fn interface_acc_init() -> InterfaceAcc {
    InterfaceAcc {
        name: Seq::empty(),
        description: Seq::empty(),
        jigs: Seq::empty(),
        exec_start: None,
        format: InterfaceFormat::Text,
        working_directory: None,
    }
}

/// How one `[Interface]` section entry updates the accumulator, or rejects
/// the file. Unknown keys and grouped keys are skipped.
pub open spec fn interface_step(acc: InterfaceAcc, e: Option<(Seq<char>, Option<Seq<char>>)>)
    -> Result<InterfaceAcc, UnitDescriptionErrorView> {
    match e {
        None => Ok(acc),
        Some((k, val)) => {
            if k == "Name"@ {
                Ok(InterfaceAcc { name: match val { Some(v) => v, None => Seq::empty() }, ..acc })
            } else if k == "Description"@ {
                Ok(
                    InterfaceAcc {
                        description: match val { Some(v) => v, None => Seq::empty() },
                        ..acc
                    },
                )
            } else if k == "Jigs"@ {
                match val {
                    None => Ok(InterfaceAcc { jigs: Seq::empty(), ..acc }),
                    Some(s) => match parse_tokens_spec(list_tokens(s), "jig"@) {
                        Ok(ns) => Ok(InterfaceAcc { jigs: ns, ..acc }),
                        Err(m) => Err(UnitDescriptionErrorView::InvalidName(m)),
                    },
                }
            } else if k == "WorkingDirectory"@ {
                match val {
                    None => Ok(acc),
                    Some(w) => Ok(InterfaceAcc { working_directory: Some(w), ..acc }),
                }
            } else if k == "ExecStart"@ {
                match val {
                    None => Err(
                        UnitDescriptionErrorView::MissingValue("Interface"@, "ExecStart"@),
                    ),
                    Some(s) => Ok(InterfaceAcc { exec_start: Some(s), ..acc }),
                }
            } else if k == "Format"@ {
                match val {
                    None => Ok(InterfaceAcc { format: InterfaceFormat::Text, ..acc }),
                    Some(s) => {
                        let low = lower_seq(s);
                        if low == "text"@ {
                            Ok(InterfaceAcc { format: InterfaceFormat::Text, ..acc })
                        } else if low == "json"@ {
                            Ok(InterfaceAcc { format: InterfaceFormat::Json, ..acc })
                        } else {
                            Err(
                                UnitDescriptionErrorView::InvalidValue(
                                    "Interface"@,
                                    "Format"@,
                                    low,
                                    seq!["text"@, "json"@],
                                ),
                            )
                        }
                    },
                }
            } else {
                Ok(acc)
            }
        },
    }
}

/// Folding a whole entry listing.
pub open spec fn fold_interface(
    es: Seq<Option<(Seq<char>, Option<Seq<char>>)>>,
    acc: InterfaceAcc,
) -> Result<InterfaceAcc, UnitDescriptionErrorView>
    decreases es.len(),
{
    if es.len() == 0 {
        Ok(acc)
    } else {
        match interface_step(acc, es[0]) {
            Err(e) => Err(e),
            Ok(acc2) => fold_interface(es.drop_first(), acc2),
        }
    }
}

/// The abstract value of an interface description.
pub struct InterfaceDescriptionView {
    pub id: UnitNameView,
    pub name: Seq<char>,
    pub description: Seq<char>,
    pub jigs: Seq<UnitNameView>,
    pub exec_start: Seq<char>,
    pub format: InterfaceFormat,
    pub working_directory: Option<Seq<char>>,
    pub unit_directory: Seq<char>,
}

/// What a parsed `[Interface]` file means, given its name, directory and one
/// consistent entry listing of its section.
pub open spec fn interface_desc_spec(
    path: Seq<char>,
    es: Seq<Option<(Seq<char>, Option<Seq<char>>)>>,
) -> Result<InterfaceDescriptionView, UnitDescriptionErrorView> {
    match from_path_spec(path) {
        Err(m) => Err(UnitDescriptionErrorView::InvalidName(m)),
        Ok(nv) => match fold_interface(es, interface_acc_init()) {
            Err(e) => Err(e),
            Ok(acc) => match acc.exec_start {
                None => Err(UnitDescriptionErrorView::MissingValue("Interface"@, "ExecStart"@)),
                Some(cmd) => Ok(
                    InterfaceDescriptionView {
                        id: nv,
                        name: acc.name,
                        description: acc.description,
                        jigs: acc.jigs,
                        exec_start: cmd,
                        format: acc.format,
                        working_directory: acc.working_directory,
                        unit_directory: parent_dir(path),
                    },
                ),
            },
        },
    }
}

/// An in-memory representation of an interface unit file.
pub struct InterfaceDescription {
    id: UnitName,
    name: String,
    description: String,
    jigs: Vec<UnitName>,
    exec_start: String,
    format: InterfaceFormat,
    working_directory: Option<String>,
    unit_directory: String,
}

impl View for InterfaceDescription {
    type V = InterfaceDescriptionView;

    closed spec fn view(&self) -> InterfaceDescriptionView {
        InterfaceDescriptionView {
            id: self.id@,
            name: self.name@,
            description: self.description@,
            jigs: name_views(self.jigs@),
            exec_start: self.exec_start@,
            format: self.format,
            working_directory: match &self.working_directory {
                Some(w) => Some(w@),
                None => None,
            },
            unit_directory: self.unit_directory@,
        }
    }
}

impl InterfaceDescription {
    /// Parses an interface unit file from its path and text. The result is
    /// the canonical fold of the file's `[Interface]` entries; the order in
    /// which the outside parser lists them does not matter, because each key
    /// appears at most once.
    pub fn from_contents(path: &str, contents: &str) -> (r: Result<
        InterfaceDescription,
        UnitDescriptionError,
    >)
        ensures
            match from_path_spec(path@) {
                Err(m) => r matches Err(e) && e@ == UnitDescriptionErrorView::InvalidName(m),
                Ok(_) => match unit_file_section(contents@, "Interface"@) {
                    Err(m) => r matches Err(e) && e@ == UnitDescriptionErrorView::Parse(m),
                    Ok(o) => match o {
                        None => r matches Err(e) && e@ == UnitDescriptionErrorView::MissingSection(
                            "Interface"@,
                        ),
                        Some(dset) => exists|es: Seq<Option<(Seq<char>, Option<Seq<char>>)>>|
                            {
                                &&& #[trigger] entries_match(es, dset)
                                &&& match interface_desc_spec(path@, es) {
                                    Ok(dv) => r matches Ok(d) && d@ == dv,
                                    Err(ev) => r matches Err(e) && e@ == ev,
                                }
                            },
                    },
                },
            },
    {
        let id = match UnitName::from_path(path) {
            Ok(n) => n,
            Err(e) => {
                return Err(UnitDescriptionError::InvalidName(match e {
                    crate::unit::UnitNameError::UnrecognizedKind(s) => s,
                }));
            },
        };
        let entries = match parse_unit_section(contents, "Interface") {
            Err(m) => {
                return Err(UnitDescriptionError::Parse(m));
            },
            Ok(None) => {
                return Err(UnitDescriptionError::MissingSection(String::from_str("Interface")));
            },
            Ok(Some(v)) => v,
        };
        let ghost es = entry_views(entries@);
        let ghost dset = match unit_file_section(contents@, "Interface"@) {
            Ok(Some(d)) => d,
            _ => Set::empty(),
        };
        proof {
            assert(entries_match(es, dset));
        }
        let mut name = String::new();
        let mut description = String::new();
        let mut jigs: Vec<UnitName> = Vec::new();
        let mut exec_start: Option<String> = None;
        let mut format = InterfaceFormat::Text;
        let mut working_directory: Option<String> = None;
        let mut i: usize = 0;
        proof {
            assert(es.skip(0) =~= es);
            assert(name@ =~= Seq::<char>::empty());
            assert(description@ =~= Seq::<char>::empty());
            assert(name_views(jigs@) =~= Seq::<UnitNameView>::empty());
        }
        while i < entries.len()
            invariant
                i <= entries@.len(),
                es == entry_views(entries@),
                dset == (match unit_file_section(contents@, "Interface"@) {
                    Ok(Some(d)) => d,
                    _ => Set::<(Seq<char>, Option<Seq<char>>)>::empty(),
                }),
                entries_match(es, dset),
                from_path_spec(path@) is Ok,
                unit_file_section(contents@, "Interface"@) matches Ok(o2) && o2 is Some,
                fold_interface(es, interface_acc_init()) == fold_interface(
                    es.skip(i as int),
                    InterfaceAcc {
                        name: name@,
                        description: description@,
                        jigs: name_views(jigs@),
                        exec_start: match &exec_start {
                            Some(s) => Some(s@),
                            None => None,
                        },
                        format,
                        working_directory: match &working_directory {
                            Some(w) => Some(w@),
                            None => None,
                        },
                    },
                ),
            decreases entries@.len() - i,
        {
            let ghost old_acc = InterfaceAcc {
                name: name@,
                description: description@,
                jigs: name_views(jigs@),
                exec_start: match &exec_start {
                    Some(s) => Some(s@),
                    None => None,
                },
                format,
                working_directory: match &working_directory {
                    Some(w) => Some(w@),
                    None => None,
                },
            };
            proof {
                assert(es.skip(i as int)[0] == es[i as int]);
                assert(es.skip(i as int).drop_first() =~= es.skip(i + 1));
                assert(es[i as int] == entries@[i as int]@);
            }
            match &entries[i] {
                RawDirective::Group => {},
                RawDirective::Solo(k, val) => {
                    if str_eq(k.as_str(), "Name") {
                        name = match val {
                            Some(v) => v.clone(),
                            None => String::new(),
                        };
                        proof {
                            if val is None {
                                assert(name@ =~= Seq::<char>::empty());
                            }
                        }
                    } else if str_eq(k.as_str(), "Description") {
                        description = match val {
                            Some(v) => v.clone(),
                            None => String::new(),
                        };
                        proof {
                            if val is None {
                                assert(description@ =~= Seq::<char>::empty());
                            }
                        }
                    } else if str_eq(k.as_str(), "Jigs") {
                        match val {
                            None => {
                                jigs = Vec::new();
                                proof {
                                    assert(name_views(jigs@) =~= Seq::<UnitNameView>::empty());
                                }
                            },
                            Some(s) => {
                                match UnitName::from_list(s.as_str(), "jig") {
                                    Ok(ns) => {
                                        proof {
                                            assert(forall|j: int|
                                                0 <= j < ns@.len() ==> #[trigger] name_views(ns@)[j]
                                                    == ns@[j]@);
                                            crate::unit::lemma_parse_tokens_ok(
                                                list_tokens(s@),
                                                "jig"@,
                                                name_views(ns@),
                                            );
                                        }
                                        jigs = ns;
                                    },
                                    Err(e) => {
                                        proof {
                                            let wi = choose|wi: int|
                                                {
                                                    &&& 0 <= wi < list_tokens(s@).len()
                                                    &&& (forall|j: int|
                                                        0 <= j < wi ==> #[trigger] from_str_spec(
                                                            list_tokens(s@)[j],
                                                            "jig"@,
                                                        ) is Ok)
                                                    &&& ((#[trigger] from_str_spec(
                                                        list_tokens(s@)[wi],
                                                        "jig"@,
                                                    )) matches Err(m) && m == e@)
                                                };
                                            crate::unit::lemma_parse_tokens_err(
                                                list_tokens(s@),
                                                "jig"@,
                                                wi,
                                                e@,
                                            );
                                            let ev = UnitDescriptionErrorView::InvalidName(e@);
                                            assert(interface_step(old_acc, es[i as int]) == Err::<
                                                InterfaceAcc,
                                                UnitDescriptionErrorView,
                                            >(ev));
                                            assert(fold_interface(es, interface_acc_init())
                                                == Err::<
                                                InterfaceAcc,
                                                UnitDescriptionErrorView,
                                            >(ev));
                                            assert(interface_desc_spec(path@, es) == Err::<
                                                InterfaceDescriptionView,
                                                UnitDescriptionErrorView,
                                            >(ev));
                                        }
                                        return Err(UnitDescriptionError::InvalidName(match e {
                                            crate::unit::UnitNameError::UnrecognizedKind(m) => m,
                                        }));
                                    },
                                }
                            },
                        }
                    } else if str_eq(k.as_str(), "WorkingDirectory") {
                        match val {
                            None => {},
                            Some(w) => {
                                working_directory = Some(w.clone());
                            },
                        }
                    } else if str_eq(k.as_str(), "ExecStart") {
                        match val {
                            None => {
                                proof {
                                    let ev = UnitDescriptionErrorView::MissingValue(
                                        "Interface"@,
                                        "ExecStart"@,
                                    );
                                    assert(interface_step(old_acc, es[i as int]) == Err::<
                                        InterfaceAcc,
                                        UnitDescriptionErrorView,
                                    >(ev));
                                    assert(fold_interface(es, interface_acc_init()) == Err::<
                                        InterfaceAcc,
                                        UnitDescriptionErrorView,
                                    >(ev));
                                    assert(interface_desc_spec(path@, es) == Err::<
                                        InterfaceDescriptionView,
                                        UnitDescriptionErrorView,
                                    >(ev));
                                }
                                return Err(UnitDescriptionError::MissingValue(
                                    String::from_str("Interface"),
                                    String::from_str("ExecStart"),
                                ));
                            },
                            Some(s) => {
                                exec_start = Some(s.clone());
                            },
                        }
                    } else if str_eq(k.as_str(), "Format") {
                        match val {
                            None => {
                                format = InterfaceFormat::Text;
                            },
                            Some(s) => {
                                let low = lower_string(s.as_str());
                                if str_eq(low.as_str(), "text") {
                                    format = InterfaceFormat::Text;
                                } else if str_eq(low.as_str(), "json") {
                                    format = InterfaceFormat::Json;
                                } else {
                                    let choices = vec![
                                        String::from_str("text"),
                                        String::from_str("json"),
                                    ];
                                    proof {
                                        assert(string_views(choices@) =~= seq!["text"@, "json"@]);
                                        let ev = UnitDescriptionErrorView::InvalidValue(
                                            "Interface"@,
                                            "Format"@,
                                            low@,
                                            seq!["text"@, "json"@],
                                        );
                                        assert(interface_step(old_acc, es[i as int]) == Err::<
                                            InterfaceAcc,
                                            UnitDescriptionErrorView,
                                        >(ev));
                                        assert(fold_interface(es, interface_acc_init()) == Err::<
                                            InterfaceAcc,
                                            UnitDescriptionErrorView,
                                        >(ev));
                                        assert(interface_desc_spec(path@, es) == Err::<
                                            InterfaceDescriptionView,
                                            UnitDescriptionErrorView,
                                        >(ev));
                                    }
                                    return Err(UnitDescriptionError::InvalidValue(
                                        String::from_str("Interface"),
                                        String::from_str("Format"),
                                        low,
                                        choices,
                                    ));
                                }
                            },
                        }
                    }
                },
            }
            proof {
                let new_acc = InterfaceAcc {
                    name: name@,
                    description: description@,
                    jigs: name_views(jigs@),
                    exec_start: match &exec_start {
                        Some(s) => Some(s@),
                        None => None,
                    },
                    format,
                    working_directory: match &working_directory {
                        Some(w) => Some(w@),
                        None => None,
                    },
                };
                assert(interface_step(old_acc, es[i as int]) == Ok::<
                    InterfaceAcc,
                    UnitDescriptionErrorView,
                >(new_acc));
            }
            i = i + 1;
        }
        proof {
            assert(es.skip(es.len() as int) =~= Seq::<
                Option<(Seq<char>, Option<Seq<char>>)>,
            >::empty());
        }
        let ghost final_acc = InterfaceAcc {
            name: name@,
            description: description@,
            jigs: name_views(jigs@),
            exec_start: match &exec_start {
                Some(s) => Some(s@),
                None => None,
            },
            format,
            working_directory: match &working_directory {
                Some(w) => Some(w@),
                None => None,
            },
        };
        proof {
            assert(fold_interface(es, interface_acc_init()) == Ok::<
                InterfaceAcc,
                UnitDescriptionErrorView,
            >(final_acc));
        }
        let cmd = match exec_start {
            None => {
                proof {
                    let ev = UnitDescriptionErrorView::MissingValue("Interface"@, "ExecStart"@);
                    assert(interface_desc_spec(path@, es) == Err::<
                        InterfaceDescriptionView,
                        UnitDescriptionErrorView,
                    >(ev));
                }
                return Err(UnitDescriptionError::MissingValue(
                    String::from_str("Interface"),
                    String::from_str("ExecStart"),
                ));
            },
            Some(s) => s,
        };
        let dir = parent_dir_exec(path);
        let r = InterfaceDescription {
            id,
            name,
            description,
            jigs,
            exec_start: cmd,
            format,
            working_directory,
            unit_directory: dir,
        };
        proof {
            assert(interface_desc_spec(path@, es) matches Ok(dv) && r@ == dv);
        }
        Ok(r)
    }


    pub fn id(&self) -> (r: &UnitName)
        ensures
            r@ == self@.id,
    {
        &self.id
    }

    /// True when this interface names the jig as one it works with.
    pub fn supports_jig(&self, name: &UnitName) -> (r: bool)
        ensures
            r == self@.jigs.contains(name@),
    {
        let mut i: usize = 0;
        while i < self.jigs.len()
            invariant
                i <= self.jigs@.len(),
                forall|j: int| 0 <= j < i ==> name_views(self.jigs@)[j] != name@,
            decreases self.jigs@.len() - i,
        {
            if self.jigs[i].eq_name(name) {
                proof {
                    assert(name_views(self.jigs@)[i as int] == name@);
                    assert(self@.jigs.contains(name@));
                }
                return true;
            }
            i = i + 1;
        }
        proof {
            if self@.jigs.contains(name@) {
                let j = choose|j: int|
                    0 <= j < self@.jigs.len() && self@.jigs[j] == name@;
                assert(name_views(self.jigs@)[j] == name@);
            }
        }
        false
    }

    pub fn jigs_len(&self) -> (r: usize)
        ensures
            r == self@.jigs.len(),
    {
        self.jigs.len()
    }

    pub fn jig_at(&self, i: usize) -> (r: &UnitName)
        requires
            i < self@.jigs.len(),
        ensures
            r@ == self@.jigs[i as int],
    {
        &self.jigs[i]
    }

    pub fn exec_start(&self) -> (r: &String)
        ensures
            r@ == self@.exec_start,
    {
        &self.exec_start
    }

    pub fn format(&self) -> (r: InterfaceFormat)
        ensures
            r == self@.format,
    {
        self.format
    }

    /// An identical copy of the description.
    pub fn dup(&self) -> (r: InterfaceDescription)
        ensures
            r@ == self@,
    {
        InterfaceDescription {
            id: self.id.dup(),
            name: self.name.clone(),
            description: self.description.clone(),
            jigs: dup_names(&self.jigs),
            exec_start: self.exec_start.clone(),
            format: self.format,
            working_directory: match &self.working_directory {
                Some(w) => Some(w.clone()),
                None => None,
            },
            unit_directory: self.unit_directory.clone(),
        }
    }

    /// The directory commands resolve against.
    pub fn resolved_working_directory(&self, config: &Config) -> (r: String)
        ensures
            r@ == resolve_wd(self@.unit_directory, self@.working_directory),
    {
        config.working_directory(self.unit_directory.as_str(), &self.working_directory)
    }
}

/// A request that the supervisor spawn one interface child.
pub struct SpawnRequest {
    pub id: UnitName,
    pub exec_start: String,
    pub working_directory: String,
}

/// The abstract value of a spawn request.
pub struct SpawnRequestView {
    pub id: UnitNameView,
    pub exec_start: Seq<char>,
    pub working_directory: Seq<char>,
}

impl View for SpawnRequest {
    type V = SpawnRequestView;

    open spec fn view(&self) -> SpawnRequestView {
        SpawnRequestView {
            id: self.id@,
            exec_start: self.exec_start@,
            working_directory: self.working_directory@,
        }
    }
}

/// A request that the supervisor terminate one child, waiting up to the
/// timeout.
pub struct TerminateRequest {
    pub id: UnitName,
    pub child: u64,
    pub timeout_ms: u64,
}

/// The abstract value of a terminate request.
pub struct TerminateRequestView {
    pub id: UnitNameView,
    pub child: u64,
    pub timeout_ms: u64,
}

impl View for TerminateRequest {
    type V = TerminateRequestView;

    open spec fn view(&self) -> TerminateRequestView {
        TerminateRequestView { id: self.id@, child: self.child, timeout_ms: self.timeout_ms }
    }
}

/// Why deactivation failed: the child exited non-zero, or the supervisor
/// reported an error of its own.
#[derive(Debug)]
pub enum UnitDeactivateError {
    NonZeroReturn(i64),
    RunningError(String),
}

/// The abstract value of a deactivation error.
pub enum UnitDeactivateErrorView {
    NonZeroReturn(i64),
    RunningError(Seq<char>),
}

impl View for UnitDeactivateError {
    type V = UnitDeactivateErrorView;

    open spec fn view(&self) -> UnitDeactivateErrorView {
        match self {
            UnitDeactivateError::NonZeroReturn(c) => UnitDeactivateErrorView::NonZeroReturn(*c),
            UnitDeactivateError::RunningError(e) => UnitDeactivateErrorView::RunningError(e@),
        }
    }
}

/// Why a status message could not be rendered to a child.
#[derive(Clone, Copy, PartialEq, Eq, Structural, Debug)]
pub enum InterfaceError {
    /// No child process is attached.
    NoProcess,
    /// The interface asked for a wire format this build does not render.
    UnsupportedFormat,
}

/// The abstract value of a live interface.
pub struct InterfaceInstanceView {
    pub desc: InterfaceDescriptionView,
    pub process: Option<u64>,
    pub terminate_timeout_ms: u64,
}

/// A live interface unit: its description, the attached child process if one
/// is running, and the timeout its termination gets.
pub struct Interface {
    desc: InterfaceDescription,
    process: Option<u64>,
    terminate_timeout_ms: u64,
}

impl View for Interface {
    type V = InterfaceInstanceView;

    closed spec fn view(&self) -> InterfaceInstanceView {
        InterfaceInstanceView {
            desc: self.desc@,
            process: self.process,
            terminate_timeout_ms: self.terminate_timeout_ms,
        }
    }
}

impl Interface {
    /// A fresh instance with no child attached.
    pub fn new(desc: &InterfaceDescription, config: &Config) -> (r: Interface)
        ensures
            r@ == (InterfaceInstanceView {
                desc: desc@,
                process: None,
                terminate_timeout_ms: config.terminate_timeout(),
            }),
    {
        Interface {
            desc: desc.dup(),
            process: None,
            terminate_timeout_ms: config.terminate_timeout_ms(),
        }
    }

    pub fn id(&self) -> (r: &UnitName)
        ensures
            r@ == self@.desc.id,
    {
        self.desc.id()
    }

    /// Selection never fails for an interface.
    pub fn select(&self) -> (r: bool)
        ensures
            r,
    {
        true
    }

    /// Deselection never fails for an interface.
    pub fn deselect(&self) -> (r: bool)
        ensures
            r,
    {
        true
    }

    pub fn has_child(&self) -> (r: bool)
        ensures
            r == (self@.process is Some),
    {
        self.process.is_some()
    }

    /// What spawning this interface means: its command, run in its resolved
    /// working directory.
    pub fn activate(&self, config: &Config) -> (r: SpawnRequest)
        ensures
            r@ == (SpawnRequestView {
                id: self@.desc.id,
                exec_start: self@.desc.exec_start,
                working_directory: resolve_wd(
                    self@.desc.unit_directory,
                    self@.desc.working_directory,
                ),
            }),
    {
        SpawnRequest {
            id: self.desc.id().dup(),
            exec_start: self.desc.exec_start().clone(),
            working_directory: self.desc.resolved_working_directory(config),
        }
    }

    /// Records the spawned child.
    pub fn attach_child(&mut self, child: u64)
        ensures
            final(self)@ == (InterfaceInstanceView { process: Some(child), ..old(self)@ }),
    {
        self.process = Some(child);
    }

    /// Clears the instance's child in every case; when one was attached, the
    /// request to terminate it is handed back.
    pub fn deactivate(&mut self) -> (r: Option<TerminateRequest>)
        ensures
            final(self)@ == (InterfaceInstanceView { process: None, ..old(self)@ }),
            match old(self)@.process {
                Some(c) => r matches Some(t) && t@ == (TerminateRequestView {
                    id: old(self)@.desc.id,
                    child: c,
                    timeout_ms: old(self)@.terminate_timeout_ms,
                }),
                None => r is None,
            },
    {
        match self.process {
            Some(c) => {
                self.process = None;
                Some(
                    TerminateRequest {
                        id: self.desc.id().dup(),
                        child: c,
                        timeout_ms: self.terminate_timeout_ms,
                    },
                )
            },
            None => None,
        }
    }

    /// Renders a status message for this interface's child: the exact wire
    /// record to write to its stdin.
    pub fn output_message(&self, msg: &ManagerStatusMessage) -> (r: Result<String, InterfaceError>)
        ensures
            match self@.process {
                None => r == Err::<String, InterfaceError>(InterfaceError::NoProcess),
                Some(_) => match self@.desc.format {
                    InterfaceFormat::Text => r matches Ok(s) && s@ == render_spec(msg@),
                    InterfaceFormat::Json => r == Err::<String, InterfaceError>(
                        InterfaceError::UnsupportedFormat,
                    ),
                },
            },
    {
        if self.process.is_none() {
            return Err(InterfaceError::NoProcess);
        }
        match self.desc.format() {
            InterfaceFormat::Text => Ok(crate::protocol::render_status_message(msg)),
            InterfaceFormat::Json => Err(InterfaceError::UnsupportedFormat),
        }
    }
}

/// Maps what the supervisor reported after a termination: exit code zero is
/// success, any other exit code is a non-zero-return error, and a supervisor
/// error propagates as a running error.
pub fn deactivation_outcome(outcome: &Result<i64, String>) -> (r: Result<(), UnitDeactivateError>)
    ensures
        match outcome {
            Ok(c) => if *c == 0 {
                r is Ok
            } else {
                r matches Err(e) && e@ == UnitDeactivateErrorView::NonZeroReturn(*c)
            },
            Err(m) => r matches Err(e) && e@ == UnitDeactivateErrorView::RunningError(m@),
        },
{
    match outcome {
        Ok(c) => {
            if *c == 0 {
                Ok(())
            } else {
                Err(UnitDeactivateError::NonZeroReturn(*c))
            }
        },
        Err(m) => Err(UnitDeactivateError::RunningError(m.clone())),
    }
}

} // verus!
