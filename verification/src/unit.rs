//! Unit naming: a unit is identified by a kind, derived from a file
//! extension, together with a short lowercase id.

use vstd::prelude::*;

use crate::strutil::{chars_string, lower_chars, lower_seq, str_chars, subvec};

verus! {

#[derive(Clone, Copy, PartialEq, Eq, Structural, Debug)]
pub enum UnitKind {
    Internal,
    Jig,
    Interface,
    Logger,
    Trigger,
    Test,
    Scenario,
}

/// The lowercase name of a unit kind, as it appears in file extensions.
pub open spec fn kind_name(k: UnitKind) -> Seq<char> {
    match k {
        UnitKind::Internal => "internal"@,
        UnitKind::Jig => "jig"@,
        UnitKind::Interface => "interface"@,
        UnitKind::Logger => "logger"@,
        UnitKind::Trigger => "trigger"@,
        UnitKind::Test => "test"@,
        UnitKind::Scenario => "scenario"@,
    }
}

/// The kind denoted by a lowercase name. `Internal` is a reserved sentinel
/// and is never denoted by a file extension or a written name.
pub open spec fn kind_of_name(s: Seq<char>) -> Option<UnitKind> {
    if s == "jig"@ {
        Some(UnitKind::Jig)
    } else if s == "interface"@ {
        Some(UnitKind::Interface)
    } else if s == "logger"@ {
        Some(UnitKind::Logger)
    } else if s == "trigger"@ {
        Some(UnitKind::Trigger)
    } else if s == "test"@ {
        Some(UnitKind::Test)
    } else if s == "scenario"@ {
        Some(UnitKind::Scenario)
    } else {
        None
    }
}

pub fn kind_name_string(k: UnitKind) -> (r: String)
    ensures
        r@ == kind_name(k),
{
    match k {
        UnitKind::Internal => String::from_str("internal"),
        UnitKind::Jig => String::from_str("jig"),
        UnitKind::Interface => String::from_str("interface"),
        UnitKind::Logger => String::from_str("logger"),
        UnitKind::Trigger => String::from_str("trigger"),
        UnitKind::Test => String::from_str("test"),
        UnitKind::Scenario => String::from_str("scenario"),
    }
}

/// Relies on str equality: two slices are equal exactly when their
/// characters are.
#[verifier::external_body]
pub fn str_eq(a: &str, b: &str) -> (r: bool)
    ensures
        r == (a@ == b@),
{
    a == b
}

fn kind_from_chars(low: &Vec<char>) -> (r: Option<UnitKind>)
    ensures
        r == kind_of_name(low@),
{
    let t = chars_string(low);
    if str_eq(t.as_str(), "jig") {
        Some(UnitKind::Jig)
    } else if str_eq(t.as_str(), "interface") {
        Some(UnitKind::Interface)
    } else if str_eq(t.as_str(), "logger") {
        Some(UnitKind::Logger)
    } else if str_eq(t.as_str(), "trigger") {
        Some(UnitKind::Trigger)
    } else if str_eq(t.as_str(), "test") {
        Some(UnitKind::Test)
    } else if str_eq(t.as_str(), "scenario") {
        Some(UnitKind::Scenario)
    } else {
        None
    }
}

/// An error in a written unit name: the kind token is not one of the six
/// kind names.
#[derive(Debug)]
pub enum UnitNameError {
    UnrecognizedKind(String),
}

impl UnitNameError {
    pub open spec fn view(&self) -> Seq<char> {
        match self {
            UnitNameError::UnrecognizedKind(s) => s@,
        }
    }

    /// A human-readable reason, broadcast verbatim with load failures.
    pub fn message(&self) -> (r: String)
        ensures
            r@ == "unrecognized unit kind "@ + self@,
    {
        match self {
            UnitNameError::UnrecognizedKind(s) => {
                String::from_str("unrecognized unit kind ").concat(s.as_str())
            },
        }
    }
}

/// The abstract value of a unit name.
pub struct UnitNameView {
    pub kind: UnitKind,
    pub id: Seq<char>,
}

/// A unit identifier: a kind and a short lowercase id.
#[derive(Debug)]
pub struct UnitName {
    kind: UnitKind,
    id: String,
}

impl View for UnitName {
    type V = UnitNameView;

    closed spec fn view(&self) -> UnitNameView {
        UnitNameView { kind: self.kind, id: self.id@ }
    }
}

/// The full written form of a name, `id.kind`.
pub open spec fn full_name_spec(n: UnitNameView) -> Seq<char> {
    n.id + "."@ + kind_name(n.kind)
}

/// The index of the last occurrence of `c` in `s`, or -1.
pub open spec fn last_pos(s: Seq<char>, c: char) -> int
    decreases s.len(),
{
    if s.len() == 0 {
        -1
    } else if s[s.len() - 1] == c {
        s.len() - 1
    } else {
        last_pos(s.drop_last(), c)
    }
}

proof fn lemma_last_pos_none(s: Seq<char>, c: char)
    requires
        forall|j: int| 0 <= j < s.len() ==> s[j] != c,
    ensures
        last_pos(s, c) == -1,
    decreases s.len(),
{
    if s.len() > 0 {
        lemma_last_pos_none(s.drop_last(), c);
    }
}

proof fn lemma_last_pos_at(s: Seq<char>, c: char, i: int)
    requires
        0 <= i < s.len(),
        s[i] == c,
        forall|j: int| i < j < s.len() ==> s[j] != c,
    ensures
        last_pos(s, c) == i,
    decreases s.len(),
{
    if i < s.len() - 1 {
        lemma_last_pos_at(s.drop_last(), c, i);
    }
}

/// Finds the last occurrence of `c` in `v`.
pub fn find_last(v: &Vec<char>, c: char) -> (r: Option<usize>)
    ensures
        match r {
            Some(i) => i < v@.len() && last_pos(v@, c) == i,
            None => last_pos(v@, c) == -1,
        },
{
    let mut i: usize = v.len();
    while i > 0
        invariant
            i <= v@.len(),
            forall|j: int| i <= j < v@.len() ==> v@[j] != c,
        decreases i,
    {
        i = i - 1;
        if v[i] == c {
            proof {
                lemma_last_pos_at(v@, c, i as int);
            }
            return Some(i);
        }
    }
    proof {
        lemma_last_pos_none(v@, c);
    }
    None
}

/// What parsing `"id.kind"` (or a bare `"id"`, with the default kind)
/// yields: the name, or the unrecognized lowercase kind token.
pub open spec fn from_str_spec(s: Seq<char>, default_kind: Seq<char>) -> Result<
    UnitNameView,
    Seq<char>,
> {
    let low = lower_seq(s);
    let d = last_pos(low, '.');
    if d < 0 {
        let dk = lower_seq(default_kind);
        match kind_of_name(dk) {
            Some(k) => Ok(UnitNameView { kind: k, id: low }),
            None => Err(dk),
        }
    } else {
        let ks = low.skip(d + 1);
        match kind_of_name(ks) {
            Some(k) => Ok(UnitNameView { kind: k, id: low.take(d) }),
            None => Err(ks),
        }
    }
}

/// What deriving a name from a path yields: the kind comes from the
/// extension of the basename, the id from the rest of the basename, both
/// case-folded; a missing or unknown extension is an error.
pub open spec fn from_path_spec(s: Seq<char>) -> Result<UnitNameView, Seq<char>> {
    let base = s.skip(last_pos(s, '/') + 1);
    let d = last_pos(base, '.');
    if d < 0 {
        Err(Seq::<char>::empty())
    } else {
        let ext = lower_seq(base.skip(d + 1));
        match kind_of_name(ext) {
            Some(k) => Ok(UnitNameView { kind: k, id: lower_seq(base.take(d)) }),
            None => Err(ext),
        }
    }
}

/// The views of a vector of names.
pub open spec fn name_views(s: Seq<UnitName>) -> Seq<UnitNameView> {
    s.map_values(|n: UnitName| n@)
}

/// Copies a vector of names.
pub fn dup_names(v: &Vec<UnitName>) -> (r: Vec<UnitName>)
    ensures
        name_views(r@) == name_views(v@),
{
    let mut out: Vec<UnitName> = Vec::new();
    let mut i: usize = 0;
    while i < v.len()
        invariant
            i <= v@.len(),
            name_views(out@) == name_views(v@).take(i as int),
        decreases v@.len() - i,
    {
        let ghost seen = name_views(out@);
        let n = v[i].dup();
        out.push(n);
        proof {
            assert(name_views(out@) =~= seen.push(v@[i as int]@));
            assert(name_views(out@) =~= name_views(v@).take(i + 1));
        }
        i = i + 1;
    }
    proof {
        assert(name_views(v@).take(name_views(v@).len() as int) =~= name_views(v@));
        assert(name_views(v@).len() == v@.len());
    }
    out
}

/// A list separator in a `Jigs`-style directive value.
pub open spec fn is_list_sep(c: char) -> bool {
    c == ',' || c == ' ' || c == '\t'
}

/// Splits on separators, dropping empty tokens; `cur` is the token read so
/// far.
pub open spec fn split_acc(s: Seq<char>, cur: Seq<char>) -> Seq<Seq<char>>
    decreases s.len(),
{
    if s.len() == 0 {
        if cur.len() == 0 {
            Seq::empty()
        } else {
            seq![cur]
        }
    } else if is_list_sep(s[0]) {
        if cur.len() == 0 {
            split_acc(s.drop_first(), Seq::empty())
        } else {
            seq![cur] + split_acc(s.drop_first(), Seq::empty())
        }
    } else {
        split_acc(s.drop_first(), cur.push(s[0]))
    }
}

/// The tokens of a comma/space separated list.
pub open spec fn list_tokens(s: Seq<char>) -> Seq<Seq<char>> {
    split_acc(s, Seq::empty())
}

/// The character sequences of a vector of character vectors.
pub open spec fn views_of(s: Seq<Vec<char>>) -> Seq<Seq<char>> {
    s.map_values(|t: Vec<char>| t@)
}

/// Splits a character vector into its list tokens.
pub fn split_list_chars(v: &Vec<char>) -> (r: Vec<Vec<char>>)
    ensures
        views_of(r@) == list_tokens(v@),
{
    let mut done: Vec<Vec<char>> = Vec::new();
    let mut cur: Vec<char> = Vec::new();
    let mut i: usize = 0;
    proof {
        assert(v@.skip(0) =~= v@);
    }
    while i < v.len()
        invariant
            i <= v@.len(),
            list_tokens(v@) == views_of(done@) + split_acc(v@.skip(i as int), cur@),
        decreases v@.len() - i,
    {
        let c = v[i];
        proof {
            assert(v@.skip(i as int).drop_first() =~= v@.skip(i + 1 as int));
            assert(v@.skip(i as int)[0] == v@[i as int]);
        }
        if c == ',' || c == ' ' || c == '\t' {
            proof {
                if cur@.len() == 0 {
                    assert(cur@ =~= Seq::<char>::empty());
                }
            }
            if cur.len() > 0 {
                let ghost old_done = views_of(done@);
                let ghost cur_v = cur@;
                done.push(cur);
                cur = Vec::new();
                proof {
                    assert(views_of(done@) =~= old_done.push(cur_v));
                    assert(views_of(done@) + split_acc(v@.skip(i + 1 as int), cur@) =~= old_done
                        + (seq![cur_v] + split_acc(v@.skip(i + 1 as int), Seq::empty())));
                }
            }
        } else {
            cur.push(c);
        }
        i = i + 1;
    }
    proof {
        assert(v@.skip(v@.len() as int) =~= Seq::<char>::empty());
    }
    if cur.len() > 0 {
        let ghost old_done = views_of(done@);
        let ghost cur_v = cur@;
        done.push(cur);
        proof {
            assert(views_of(done@) =~= old_done.push(cur_v));
            assert(views_of(done@) =~= list_tokens(v@));
        }
    } else {
        proof {
            assert(views_of(done@) + Seq::<Seq<char>>::empty() =~= views_of(done@));
        }
    }
    done
}

impl UnitName {
    /// Builds a name from its two components.
    pub fn from_parts(kind: UnitKind, id: String) -> (r: UnitName)
        ensures
            r@ == (UnitNameView { kind, id: id@ }),
    {
        UnitName { kind, id }
    }

    pub fn kind(&self) -> (r: UnitKind)
        ensures
            r == self@.kind,
    {
        self.kind
    }

    pub fn id(&self) -> (r: &String)
        ensures
            r@ == self@.id,
    {
        &self.id
    }

    /// An identical copy of the name.
    pub fn dup(&self) -> (r: UnitName)
        ensures
            r@ == self@,
    {
        UnitName { kind: self.kind, id: self.id.clone() }
    }

    /// Two names are the same unit exactly when kind and id agree.
    pub fn eq_name(&self, other: &UnitName) -> (r: bool)
        ensures
            r == (self@ == other@),
    {
        self.kind == other.kind && self.id.eq(&other.id)
    }

    /// The full written form, `id.kind`.
    pub fn full_name(&self) -> (r: String)
        ensures
            r@ == full_name_spec(self@),
    {
        let k = kind_name_string(self.kind);
        self.id.clone().concat(".").concat(k.as_str())
    }

    /// Parses `"id.kind"`, or a bare `"id"` with the default kind; ids and
    /// kind names are case-folded to lowercase.
    pub fn from_str(s: &str, default_kind: &str) -> (r: Result<UnitName, UnitNameError>)
        ensures
            match from_str_spec(s@, default_kind@) {
                Ok(nv) => r matches Ok(n) && n@ == nv,
                Err(m) => r matches Err(e) && e@ == m,
            },
    {
        let raw = str_chars(s);
        let low = lower_chars(&raw);
        match find_last(&low, '.') {
            Some(d) => {
                let ks = subvec(&low, d + 1, low.len());
                match kind_from_chars(&ks) {
                    Some(k) => {
                        let idc = subvec(&low, 0, d);
                        Ok(UnitName { kind: k, id: chars_string(&idc) })
                    },
                    None => Err(UnitNameError::UnrecognizedKind(chars_string(&ks))),
                }
            },
            None => {
                let draw = str_chars(default_kind);
                let dlow = lower_chars(&draw);
                match kind_from_chars(&dlow) {
                    Some(k) => Ok(UnitName { kind: k, id: chars_string(&low) }),
                    None => Err(UnitNameError::UnrecognizedKind(chars_string(&dlow))),
                }
            },
        }
    }

    /// Derives a name from a path: the basename's extension gives the kind.
    pub fn from_path(path: &str) -> (r: Result<UnitName, UnitNameError>)
        ensures
            match from_path_spec(path@) {
                Ok(nv) => r matches Ok(n) && n@ == nv,
                Err(m) => r matches Err(e) && e@ == m,
            },
    {
        let raw = str_chars(path);
        let n = raw.len();
        let base = match find_last(&raw, '/') {
            Some(i) => subvec(&raw, i + 1, n),
            None => {
                proof {
                    assert(raw@.skip(0) =~= raw@);
                }
                subvec(&raw, 0, n)
            },
        };
        match find_last(&base, '.') {
            Some(d) => {
                let extraw = subvec(&base, d + 1, base.len());
                let ext = lower_chars(&extraw);
                match kind_from_chars(&ext) {
                    Some(k) => {
                        let idraw = subvec(&base, 0, d);
                        let idc = lower_chars(&idraw);
                        Ok(UnitName { kind: k, id: chars_string(&idc) })
                    },
                    None => Err(UnitNameError::UnrecognizedKind(chars_string(&ext))),
                }
            },
            None => Err(UnitNameError::UnrecognizedKind(String::new())),
        }
    }

    /// Parses a comma/space separated list of names, each with the default
    /// kind unless it writes its own.
    pub fn from_list(s: &str, default_kind: &str) -> (r: Result<Vec<UnitName>, UnitNameError>)
        ensures
            match r {
                Ok(v) => {
                    &&& v@.len() == list_tokens(s@).len()
                    &&& forall|i: int|
                        0 <= i < v@.len() ==> ((#[trigger] from_str_spec(
                            list_tokens(s@)[i],
                            default_kind@,
                        )) matches Ok(nv) && v@[i]@ == nv)
                },
                Err(e) => exists|i: int|
                    {
                        &&& 0 <= i < list_tokens(s@).len()
                        &&& (forall|j: int|
                            0 <= j < i ==> #[trigger] from_str_spec(
                                list_tokens(s@)[j],
                                default_kind@,
                            ) is Ok)
                        &&& ((#[trigger] from_str_spec(list_tokens(s@)[i], default_kind@))
                            matches Err(m) && m == e@)
                    },
            },
    {
        let raw = str_chars(s);
        let tokens = split_list_chars(&raw);
        let mut out: Vec<UnitName> = Vec::new();
        let mut i: usize = 0;
        while i < tokens.len()
            invariant
                i <= tokens@.len(),
                views_of(tokens@) == list_tokens(s@),
                out@.len() == i,
                forall|j: int|
                    0 <= j < i ==> ((#[trigger] from_str_spec(
                        list_tokens(s@)[j],
                        default_kind@,
                    )) matches Ok(nv) && out@[j]@ == nv),
            decreases tokens@.len() - i,
        {
            let t = chars_string(&tokens[i]);
            proof {
                assert(t@ == list_tokens(s@)[i as int]);
            }
            match UnitName::from_str(t.as_str(), default_kind) {
                Ok(n) => {
                    out.push(n);
                },
                Err(e) => {
                    proof {
                        assert((#[trigger] from_str_spec(list_tokens(s@)[i as int], default_kind@))
                            matches Err(m) && m == e@);
                    }
                    return Err(e);
                },
            }
            i = i + 1;
        }
        Ok(out)
    }
}

/// Parsing each token in turn; the first failure wins.
pub open spec fn parse_tokens_spec(ts: Seq<Seq<char>>, dk: Seq<char>) -> Result<
    Seq<UnitNameView>,
    Seq<char>,
>
    decreases ts.len(),
{
    if ts.len() == 0 {
        Ok(Seq::empty())
    } else {
        match from_str_spec(ts[0], dk) {
            Err(m) => Err(m),
            Ok(n) => match parse_tokens_spec(ts.drop_first(), dk) {
                Err(m) => Err(m),
                Ok(rest) => Ok(seq![n] + rest),
            },
        }
    }
}

/// What parsing a whole name list yields.
pub open spec fn from_list_spec(s: Seq<char>, dk: Seq<char>) -> Result<Seq<UnitNameView>, Seq<char>> {
    parse_tokens_spec(list_tokens(s), dk)
}

/// When every token parses, the token-by-token parse succeeds with exactly
/// those names.
pub proof fn lemma_parse_tokens_ok(ts: Seq<Seq<char>>, dk: Seq<char>, vs: Seq<UnitNameView>)
    requires
        vs.len() == ts.len(),
        forall|i: int|
            0 <= i < ts.len() ==> ((#[trigger] from_str_spec(ts[i], dk)) matches Ok(nv) && vs[i]
                == nv),
    ensures
        parse_tokens_spec(ts, dk) == Ok::<Seq<UnitNameView>, Seq<char>>(vs),
    decreases ts.len(),
{
    if ts.len() == 0 {
        assert(vs =~= Seq::<UnitNameView>::empty());
    } else {
        assert(from_str_spec(ts[0], dk) matches Ok(nv) && vs[0] == nv);
        assert(forall|i: int|
            0 <= i < ts.drop_first().len() ==> #[trigger] from_str_spec(ts.drop_first()[i], dk)
                == from_str_spec(ts[i + 1], dk));
        lemma_parse_tokens_ok(ts.drop_first(), dk, vs.drop_first());
        assert(vs =~= seq![vs[0]] + vs.drop_first());
    }
}

/// When some token fails and every earlier one parses, the token-by-token
/// parse fails with that token's error.
pub proof fn lemma_parse_tokens_err(ts: Seq<Seq<char>>, dk: Seq<char>, i: int, m: Seq<char>)
    requires
        0 <= i < ts.len(),
        forall|j: int| 0 <= j < i ==> (#[trigger] from_str_spec(ts[j], dk)) is Ok,
        from_str_spec(ts[i], dk) == Err::<UnitNameView, Seq<char>>(m),
    ensures
        parse_tokens_spec(ts, dk) == Err::<Seq<UnitNameView>, Seq<char>>(m),
    decreases ts.len(),
{
    if i == 0 {
    } else {
        assert(from_str_spec(ts[0], dk) is Ok);
        assert(forall|j: int|
            0 <= j < ts.drop_first().len() ==> #[trigger] from_str_spec(ts.drop_first()[j], dk)
                == from_str_spec(ts[j + 1], dk));
        lemma_parse_tokens_err(ts.drop_first(), dk, i - 1, m);
    }
}

} // verus!
