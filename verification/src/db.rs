//! Package metadata as pacman's databases record it: dependency and
//! provides declarations, the `desc` record format of the sync and local
//! databases, and the in-memory databases built from them.
//!
//! All contents are treated as untrusted input and parsed defensively.

use std::cmp::Ordering;
use vstd::prelude::*;

use crate::text::{
    chars_eq, chars_of, contains, find_from, is_first_occurrence_from, lines, lines_of, occurs_at,
    parse_i64, parse_i64_spec, slice_chars, str_eq, string_from_chars, trim, trim_chars, trim_end,
    trim_end_chars,
};
use crate::vercmp::{lemma_vercmp_antisymmetric, lemma_vercmp_reflexive, vercmp, version_order};

verus! {

/// Comparison operator in a versioned dependency (`foo>=1.2-3`).
#[derive(Debug, Clone, Copy, PartialEq, Eq, Structural)]
pub enum DepOp {
    Ge,
    Le,
    Eq,
    Gt,
    Lt,
}

/// A dependency declaration, optionally with a version constraint.
#[derive(Debug, Clone, PartialEq, Eq)]
pub struct DepSpec {
    pub name: String,
    pub constraint: Option<(DepOp, String)>,
}

/// The abstract value of a [`DepSpec`].
pub struct DepSpecView {
    pub name: Seq<char>,
    pub constraint: Option<(DepOp, Seq<char>)>,
}

impl View for DepSpec {
    type V = DepSpecView;

    open spec fn view(&self) -> DepSpecView {
        DepSpecView {
            name: self.name@,
            constraint: match self.constraint {
                Some((op, v)) => Some((op, v@)),
                None => None,
            },
        }
    }
}

/// The text an entry is parsed from: everything before the first space or
/// the `:` that starts a description (`: ` or a final `:`), trimmed. A colon
/// inside a version, as in an epoch `1:2.0-1`, stays.
pub open spec fn entry_head(raw: Seq<char>) -> Seq<char> {
    trim(raw.take(first_of_space_or_colon(raw, 0)))
}

/// Whether position `i` of `s` ends the entry's head: a space, or a colon
/// followed by a space or by nothing.
pub open spec fn head_ends_at(s: Seq<char>, i: int) -> bool {
    s[i] == ' ' || (s[i] == ':' && (i + 1 >= s.len() || s[i + 1] == ' '))
}

/// Index of the first position at or after `i` that ends the head, or
/// `s.len()`.
pub open spec fn first_of_space_or_colon(s: Seq<char>, i: int) -> int
    decreases s.len() - i,
{
    if i >= s.len() {
        s.len() as int
    } else if head_ends_at(s, i) {
        i
    } else {
        first_of_space_or_colon(s, i + 1)
    }
}

/// The position of the first occurrence of `p` in `s`, if any.
pub open spec fn find(s: Seq<char>, p: Seq<char>) -> Option<int> {
    if contains(s, p) {
        Some(choose|i: int| is_first_occurrence_from(s, p, 0, i))
    } else {
        None
    }
}

/// The operators in the order the parser tries them.
pub open spec fn op_text(op: DepOp) -> Seq<char> {
    match op {
        DepOp::Ge => seq!['>', '='],
        DepOp::Le => seq!['<', '='],
        DepOp::Eq => seq!['='],
        DepOp::Gt => seq!['>'],
        DepOp::Lt => seq!['<'],
    }
}

/// The first operator, in the order `>=`, `<=`, `=`, `>`, `<`, that occurs
/// anywhere in `s`.
pub open spec fn first_listed_op(s: Seq<char>) -> Option<DepOp> {
    if find(s, op_text(DepOp::Ge)) is Some {
        Some(DepOp::Ge)
    } else if find(s, op_text(DepOp::Le)) is Some {
        Some(DepOp::Le)
    } else if find(s, op_text(DepOp::Eq)) is Some {
        Some(DepOp::Eq)
    } else if find(s, op_text(DepOp::Gt)) is Some {
        Some(DepOp::Gt)
    } else if find(s, op_text(DepOp::Lt)) is Some {
        Some(DepOp::Lt)
    } else {
        None
    }
}

/// `DepSpec::parse` on the characters of `raw`.
pub open spec fn parse_dep_spec(raw: Seq<char>) -> Option<DepSpecView> {
    let spec = entry_head(raw);
    if spec.len() == 0 {
        None
    } else {
        match first_listed_op(spec) {
            Some(op) => {
                let idx = find(spec, op_text(op)).unwrap();
                let name = spec.take(idx);
                let version = spec.skip(idx + op_text(op).len());
                if name.len() == 0 || version.len() == 0 {
                    None
                } else {
                    Some(DepSpecView { name, constraint: Some((op, version)) })
                }
            },
            None => Some(DepSpecView { name: spec, constraint: None }),
        }
    }
}

/// Whether an order between installed and required version satisfies `op`.
pub open spec fn op_accepts(op: DepOp, o: Ordering) -> bool {
    match op {
        DepOp::Ge => o != Ordering::Less,
        DepOp::Le => o != Ordering::Greater,
        DepOp::Eq => o == Ordering::Equal,
        DepOp::Gt => o == Ordering::Greater,
        DepOp::Lt => o == Ordering::Less,
    }
}

/// Version order of two versions given as characters (compared as UTF-8).
pub open spec fn chars_version_order(a: Seq<char>, b: Seq<char>) -> Ordering {
    version_order(vstd::utf8::encode_utf8(a), vstd::utf8::encode_utf8(b))
}

/// Whether `installed` satisfies the dependency `dep`.
pub open spec fn dep_satisfied(dep: DepSpecView, installed: Seq<char>) -> bool {
    match dep.constraint {
        None => true,
        Some((op, required)) => op_accepts(op, chars_version_order(installed, required)),
    }
}

/// `name` constrained by `op` and `version`.
pub open spec fn constrained(name: Seq<char>, op: DepOp, version: Seq<char>) -> DepSpecView {
    DepSpecView { name, constraint: Some((op, version)) }
}

/// What the version operators mean. A version satisfies `=v`, `<=v` and
/// `>=v` when it is `v` itself, and never `<v` or `>v`; an installed version
/// newer than `v` satisfies `>=v` and `>v` but not `<=v`, `<v` or `=v`; `<=`
/// and `>` (and `>=` and `<`) split all versions between them; `u <= v`
/// holds exactly when `v >= u` does, and `u < v` exactly when `v > u`; and
/// `=` is `<=` and `>=` together. An unconstrained dependency is satisfied
/// by every version.
pub proof fn lemma_version_operators(name: Seq<char>, u: Seq<char>, v: Seq<char>)
    ensures
        dep_satisfied(DepSpecView { name, constraint: None }, u),
        dep_satisfied(constrained(name, DepOp::Eq, v), v),
        dep_satisfied(constrained(name, DepOp::Le, v), v),
        dep_satisfied(constrained(name, DepOp::Ge, v), v),
        !dep_satisfied(constrained(name, DepOp::Lt, v), v),
        !dep_satisfied(constrained(name, DepOp::Gt, v), v),
        chars_version_order(u, v) == Ordering::Greater ==> {
            &&& dep_satisfied(constrained(name, DepOp::Ge, v), u)
            &&& dep_satisfied(constrained(name, DepOp::Gt, v), u)
            &&& !dep_satisfied(constrained(name, DepOp::Le, v), u)
            &&& !dep_satisfied(constrained(name, DepOp::Lt, v), u)
            &&& !dep_satisfied(constrained(name, DepOp::Eq, v), u)
        },
        dep_satisfied(constrained(name, DepOp::Le, v), u) != dep_satisfied(
            constrained(name, DepOp::Gt, v),
            u,
        ),
        dep_satisfied(constrained(name, DepOp::Ge, v), u) != dep_satisfied(
            constrained(name, DepOp::Lt, v),
            u,
        ),
        dep_satisfied(constrained(name, DepOp::Le, v), u) == dep_satisfied(
            constrained(name, DepOp::Ge, u),
            v,
        ),
        dep_satisfied(constrained(name, DepOp::Lt, v), u) == dep_satisfied(
            constrained(name, DepOp::Gt, u),
            v,
        ),
        dep_satisfied(constrained(name, DepOp::Eq, v), u) == (dep_satisfied(
            constrained(name, DepOp::Le, v),
            u,
        ) && dep_satisfied(constrained(name, DepOp::Ge, v), u)),
{
    lemma_vercmp_reflexive(vstd::utf8::encode_utf8(v));
    lemma_vercmp_antisymmetric(vstd::utf8::encode_utf8(u), vstd::utf8::encode_utf8(v));
}

proof fn lemma_first_occurrence_unique(s: Seq<char>, p: Seq<char>, i: int, j: int)
    requires
        is_first_occurrence_from(s, p, 0, i),
        is_first_occurrence_from(s, p, 0, j),
    ensures
        i == j,
{
    if i < j {
        assert(!occurs_at(s, p, i));
    } else if j < i {
        assert(!occurs_at(s, p, j));
    }
}

/// Position of the first occurrence of `p` in `v`, as `str::find` gives it.
pub fn find_chars(v: &Vec<char>, p: &Vec<char>) -> (r: Option<usize>)
    ensures
        match r {
            Some(i) => find(v@, p@) == Some(i as int) && is_first_occurrence_from(v@, p@, 0, i as int),
            None => find(v@, p@) is None,
        },
{
    match find_from(v, p, 0) {
        Some(i) => {
            proof {
                assert(occurs_at(v@, p@, i as int));
                let j = choose|j: int| is_first_occurrence_from(v@, p@, 0, j);
                lemma_first_occurrence_unique(v@, p@, i as int, j);
            }
            Some(i)
        },
        None => {
            assert(!contains(v@, p@)) by {
                assert forall|k: int| !occurs_at(v@, p@, k) by {
                    if k >= 0 {
                    }
                }
            }
            None
        },
    }
}

/// Characters before the first space or description colon, trimmed.
fn entry_head_chars(raw: &Vec<char>) -> (r: Vec<char>)
    ensures
        r@ == entry_head(raw@),
{
    let mut i: usize = 0;
    while i < raw.len() && raw[i] != ' ' && !(raw[i] == ':' && (i + 1 >= raw.len() || raw[i
        + 1] == ' '))
        invariant
            i <= raw@.len(),
            first_of_space_or_colon(raw@, 0) == first_of_space_or_colon(raw@, i as int),
        decreases raw@.len() - i,
    {
        i = i + 1;
    }
    let head = slice_chars(raw, 0, i);
    assert(head@ == raw@.take(i as int));
    trim_chars(&head)
}

fn op_chars(op: DepOp) -> (r: Vec<char>)
    ensures
        r@ == op_text(op),
{
    match op {
        DepOp::Ge => vec!['>', '='],
        DepOp::Le => vec!['<', '='],
        DepOp::Eq => vec!['='],
        DepOp::Gt => vec!['>'],
        DepOp::Lt => vec!['<'],
    }
}

impl DepSpec {
    /// Parse one `%DEPENDS%` entry such as `glibc`, `foo>=1.2-3` or
    /// `bar=1.0: optional description`.
    pub fn parse(raw: &str) -> (r: Option<DepSpec>)
        ensures
            match r {
                Some(d) => parse_dep_spec(raw@) == Some(d@),
                None => parse_dep_spec(raw@) is None,
            },
    {
        let raw_chars = chars_of(raw);
        let spec = entry_head_chars(&raw_chars);
        if spec.len() == 0 {
            return None;
        }
        let ops = [DepOp::Ge, DepOp::Le, DepOp::Eq, DepOp::Gt, DepOp::Lt];
        let mut k: usize = 0;
        while k < 5
            invariant
                0 <= k <= 5,
                spec@ == entry_head(raw@),
                spec@.len() > 0,
                ops@ == seq![DepOp::Ge, DepOp::Le, DepOp::Eq, DepOp::Gt, DepOp::Lt],
                forall|j: int| 0 <= j < k ==> find(spec@, op_text(#[trigger] ops@[j])) is None,
            decreases 5 - k,
        {
            let op = ops[k];
            let text = op_chars(op);
            if let Some(idx) = find_chars(&spec, &text) {
                proof {
                    assert(find(spec@, op_text(ops@[0])) is None || k == 0);
                    assert(first_listed_op(spec@) == Some(op)) by {
                        if k >= 1 {
                            assert(find(spec@, op_text(ops@[0])) is None);
                        }
                        if k >= 2 {
                            assert(find(spec@, op_text(ops@[1])) is None);
                        }
                        if k >= 3 {
                            assert(find(spec@, op_text(ops@[2])) is None);
                        }
                        if k >= 4 {
                            assert(find(spec@, op_text(ops@[3])) is None);
                        }
                    }
                    assert(occurs_at(spec@, text@, idx as int));
                }
                let name = slice_chars(&spec, 0, idx);
                let tl = text.len();
                let sl = spec.len();
                assert(idx + tl <= sl);
                let version = slice_chars(&spec, idx + tl, sl);
                if name.len() == 0 || version.len() == 0 {
                    return None;
                }
                return Some(
                    DepSpec {
                        name: string_from_chars(&name),
                        constraint: Some((op, string_from_chars(&version))),
                    },
                );
            }
            k = k + 1;
        }
        proof {
            assert(find(spec@, op_text(ops@[0])) is None);
            assert(find(spec@, op_text(ops@[1])) is None);
            assert(find(spec@, op_text(ops@[2])) is None);
            assert(find(spec@, op_text(ops@[3])) is None);
            assert(find(spec@, op_text(ops@[4])) is None);
        }
        Some(DepSpec { name: string_from_chars(&spec), constraint: None })
    }

    /// Does `installed_version` satisfy this dependency?
    pub fn satisfied_by(&self, installed_version: &str) -> (r: bool)
        ensures
            r == dep_satisfied(self@, installed_version@),
    {
        match &self.constraint {
            None => true,
            Some((op, required)) => {
                let ord = vercmp(installed_version, required.as_str());
                match op {
                    DepOp::Ge => !is_less(ord),
                    DepOp::Le => !is_greater(ord),
                    DepOp::Eq => is_equal(ord),
                    DepOp::Gt => is_greater(ord),
                    DepOp::Lt => is_less(ord),
                }
            },
        }
    }

    pub fn duplicate(&self) -> (r: DepSpec)
        ensures
            r@ == self@,
    {
        DepSpec {
            name: self.name.clone(),
            constraint: match &self.constraint {
                Some((op, v)) => Some((*op, v.clone())),
                None => None,
            },
        }
    }
}

fn is_less(o: Ordering) -> (r: bool)
    ensures
        r == (o == Ordering::Less),
{
    match o {
        Ordering::Less => true,
        _ => false,
    }
}

fn is_greater(o: Ordering) -> (r: bool)
    ensures
        r == (o == Ordering::Greater),
{
    match o {
        Ordering::Greater => true,
        _ => false,
    }
}

fn is_equal(o: Ordering) -> (r: bool)
    ensures
        r == (o == Ordering::Equal),
{
    match o {
        Ordering::Equal => true,
        _ => false,
    }
}

} // verus!

verus! {

/// A `%PROVIDES%` entry: a virtual capability, optionally versioned
/// (`libfoo=1.0`).
#[derive(Debug, Clone, PartialEq, Eq)]
pub struct Provide {
    pub name: String,
    pub version: Option<String>,
}

/// The abstract value of a [`Provide`].
pub struct ProvideView {
    pub name: Seq<char>,
    pub version: Option<Seq<char>>,
}

impl View for Provide {
    type V = ProvideView;

    open spec fn view(&self) -> ProvideView {
        ProvideView {
            name: self.name@,
            version: match self.version {
                Some(v) => Some(v@),
                None => None,
            },
        }
    }
}

/// `Provide::parse` on the characters of `raw`.
pub open spec fn parse_provide(raw: Seq<char>) -> Option<ProvideView> {
    let spec = entry_head(raw);
    if spec.len() == 0 {
        None
    } else {
        match find(spec, seq!['=']) {
            Some(i) => if i > 0 && i + 1 < spec.len() {
                Some(ProvideView { name: spec.take(i), version: Some(spec.skip(i + 1)) })
            } else {
                Some(ProvideView { name: spec, version: None })
            },
            None => Some(ProvideView { name: spec, version: None }),
        }
    }
}

impl Provide {
    pub fn parse(raw: &str) -> (r: Option<Provide>)
        ensures
            match r {
                Some(p) => parse_provide(raw@) == Some(p@),
                None => parse_provide(raw@) is None,
            },
    {
        let raw_chars = chars_of(raw);
        let spec = entry_head_chars(&raw_chars);
        if spec.len() == 0 {
            return None;
        }
        let eq = vec!['='];
        assert(eq@ == seq!['=']);
        match find_chars(&spec, &eq) {
            Some(i) => {
                if i > 0 && i + 1 < spec.len() {
                    let name = slice_chars(&spec, 0, i);
                    let version = slice_chars(&spec, i + 1, spec.len());
                    Some(
                        Provide {
                            name: string_from_chars(&name),
                            version: Some(string_from_chars(&version)),
                        },
                    )
                } else {
                    Some(Provide { name: string_from_chars(&spec), version: None })
                }
            },
            None => Some(Provide { name: string_from_chars(&spec), version: None }),
        }
    }

    pub fn duplicate(&self) -> (r: Provide)
        ensures
            r@ == self@,
    {
        Provide {
            name: self.name.clone(),
            version: match &self.version {
                Some(v) => Some(v.clone()),
                None => None,
            },
        }
    }
}

/// The abstract values of a list of dependencies.
pub open spec fn dep_views(v: Seq<DepSpec>) -> Seq<DepSpecView> {
    v.map_values(|d: DepSpec| d@)
}

/// The abstract values of a list of provides.
pub open spec fn provide_views(v: Seq<Provide>) -> Seq<ProvideView> {
    v.map_values(|p: Provide| p@)
}

/// Metadata for one package version from a sync database.
#[derive(Debug, Clone)]
pub struct RepoPackageMeta {
    pub name: String,
    pub version: String,
    pub build_date: Option<i64>,
    pub depends: Vec<DepSpec>,
    pub provides: Vec<Provide>,
}

/// The abstract value of a [`RepoPackageMeta`].
pub struct MetaView {
    pub name: Seq<char>,
    pub version: Seq<char>,
    pub build_date: Option<i64>,
    pub depends: Seq<DepSpecView>,
    pub provides: Seq<ProvideView>,
}

impl View for RepoPackageMeta {
    type V = MetaView;

    open spec fn view(&self) -> MetaView {
        MetaView {
            name: self.name@,
            version: self.version@,
            build_date: self.build_date,
            depends: dep_views(self.depends@),
            provides: provide_views(self.provides@),
        }
    }
}

impl Default for RepoPackageMeta {
    fn default() -> (r: Self)
        ensures
            r@ == empty_meta(),
    {
        let r = RepoPackageMeta {
            name: String::new(),
            version: String::new(),
            build_date: None,
            depends: Vec::new(),
            provides: Vec::new(),
        };
        assert(dep_views(r.depends@) =~= seq![]);
        assert(provide_views(r.provides@) =~= seq![]);
        r
    }
}

pub open spec fn empty_meta() -> MetaView {
    MetaView {
        name: seq![],
        version: seq![],
        build_date: None,
        depends: seq![],
        provides: seq![],
    }
}

/// `s` without leading and trailing `c` (`str::trim_matches(c)`).
pub open spec fn trim_char(s: Seq<char>, c: char) -> Seq<char> {
    trim_char_end(trim_char_start(s, c), c)
}

pub open spec fn trim_char_start(s: Seq<char>, c: char) -> Seq<char>
    decreases s.len(),
{
    if s.len() > 0 && s[0] == c {
        trim_char_start(s.drop_first(), c)
    } else {
        s
    }
}

pub open spec fn trim_char_end(s: Seq<char>, c: char) -> Seq<char>
    decreases s.len(),
{
    if s.len() > 0 && s.last() == c {
        trim_char_end(s.drop_last(), c)
    } else {
        s
    }
}

/// A `%SECTION%` header line.
pub open spec fn is_section_header(line: Seq<char>) -> bool {
    line.len() > 2 && line[0] == '%' && line.last() == '%'
}

/// Record one value line of a `desc` file under the current section.
pub open spec fn apply_desc_value(pkg: MetaView, section: Seq<char>, line: Seq<char>) -> MetaView {
    if section == "NAME"@ {
        MetaView { name: line, ..pkg }
    } else if section == "VERSION"@ {
        MetaView { version: line, ..pkg }
    } else if section == "BUILDDATE"@ {
        MetaView { build_date: parse_i64_spec(line), ..pkg }
    } else if section == "DEPENDS"@ {
        match parse_dep_spec(line) {
            Some(d) => MetaView { depends: pkg.depends.push(d), ..pkg },
            None => pkg,
        }
    } else if section == "PROVIDES"@ {
        match parse_provide(line) {
            Some(p) => MetaView { provides: pkg.provides.push(p), ..pkg },
            None => pkg,
        }
    } else {
        pkg
    }
}

/// One line of a `desc` file: blank lines are skipped, headers switch the
/// section, other lines are values of the current section.
pub open spec fn desc_step(state: (MetaView, Seq<char>), raw_line: Seq<char>) -> (
    MetaView,
    Seq<char>,
) {
    let line = trim_end(raw_line);
    if line.len() == 0 {
        state
    } else if is_section_header(line) {
        (state.0, trim_char(line, '%'))
    } else {
        (apply_desc_value(state.0, state.1, line), state.1)
    }
}

/// The package record and current section after the given lines.
pub open spec fn desc_fold(ls: Seq<Seq<char>>) -> (MetaView, Seq<char>)
    decreases ls.len(),
{
    if ls.len() == 0 {
        (empty_meta(), seq![])
    } else {
        desc_step(desc_fold(ls.drop_last()), ls.last())
    }
}

/// The package record an ALPM `desc` file describes.
pub open spec fn parse_desc_spec(content: Seq<char>) -> MetaView {
    desc_fold(lines(content)).0
}

proof fn lemma_trim_char_start_skip(s: Seq<char>, c: char, i: int)
    requires
        0 <= i <= s.len(),
        forall|j: int| 0 <= j < i ==> #[trigger] s[j] == c,
    ensures
        trim_char_start(s, c) == trim_char_start(s.skip(i), c),
    decreases i,
{
    if i > 0 {
        assert(s.drop_first().skip(i - 1) == s.skip(i));
        assert forall|j: int| 0 <= j < i - 1 implies #[trigger] s.drop_first()[j] == c by {
            assert(s.drop_first()[j] == s[j + 1]);
        }
        lemma_trim_char_start_skip(s.drop_first(), c, i - 1);
    } else {
        assert(s.skip(0) == s);
    }
}

proof fn lemma_trim_char_end_take(s: Seq<char>, c: char, i: int)
    requires
        0 <= i <= s.len(),
        forall|j: int| i <= j < s.len() ==> #[trigger] s[j] == c,
    ensures
        trim_char_end(s, c) == trim_char_end(s.take(i), c),
    decreases s.len() - i,
{
    if i < s.len() {
        assert(s.drop_last().take(i) == s.take(i));
        lemma_trim_char_end_take(s.drop_last(), c, i);
    } else {
        assert(s.take(i) == s);
    }
}

fn trim_char_chars(v: &Vec<char>, c: char) -> (r: Vec<char>)
    ensures
        r@ == trim_char(v@, c),
{
    let mut i: usize = 0;
    while i < v.len() && v[i] == c
        invariant
            i <= v@.len(),
            forall|j: int| 0 <= j < i ==> #[trigger] v@[j] == c,
        decreases v@.len() - i,
    {
        i = i + 1;
    }
    proof {
        lemma_trim_char_start_skip(v@, c, i as int);
        let t = v@.skip(i as int);
        if t.len() > 0 {
            assert(t[0] == v@[i as int]);
        }
    }
    let t = slice_chars(v, i, v.len());
    let mut k: usize = t.len();
    while k > 0 && t[k - 1] == c
        invariant
            k <= t@.len(),
            forall|j: int| k <= j < t@.len() ==> #[trigger] t@[j] == c,
        decreases k,
    {
        k = k - 1;
    }
    proof {
        lemma_trim_char_end_take(t@, c, k as int);
        let u = t@.take(k as int);
        if u.len() > 0 {
            assert(u.last() == t@[k - 1]);
        }
    }
    slice_chars(&t, 0, k)
}

/// Parse an ALPM `desc` file body into package metadata.
pub fn parse_desc(content: &str) -> (r: RepoPackageMeta)
    ensures
        r@ == parse_desc_spec(content@),
{
    let chars = chars_of(content);
    let ls = lines_of(&chars);
    let ghost spec_lines = lines(content@);
    assert(ls@.map_values(|l: Vec<char>| l@) =~= spec_lines);
    let mut pkg = RepoPackageMeta::default();
    let mut section: Vec<char> = Vec::new();
    let name_key = chars_of("NAME");
    let version_key = chars_of("VERSION");
    let builddate_key = chars_of("BUILDDATE");
    let depends_key = chars_of("DEPENDS");
    let provides_key = chars_of("PROVIDES");
    let n = ls.len();
    for i in 0..n
        invariant
            n == ls@.len() == spec_lines.len(),
            forall|k: int| 0 <= k < n ==> #[trigger] ls@[k]@ == spec_lines[k],
            (pkg@, section@) == desc_fold(spec_lines.take(i as int)),
            name_key@ == "NAME"@,
            version_key@ == "VERSION"@,
            builddate_key@ == "BUILDDATE"@,
            depends_key@ == "DEPENDS"@,
            provides_key@ == "PROVIDES"@,
    {
        assert(spec_lines.take(i + 1).drop_last() == spec_lines.take(i as int));
        assert(spec_lines.take(i + 1).last() == spec_lines[i as int]);
        let line = trim_end_chars(&ls[i]);
        if line.len() == 0 {
        } else if line[0] == '%' && line[line.len() - 1] == '%' && line.len() > 2 {
            section = trim_char_chars(&line, '%');
        } else if chars_eq(&section, &name_key) {
            pkg.name = string_from_chars(&line);
        } else if chars_eq(&section, &version_key) {
            pkg.version = string_from_chars(&line);
        } else if chars_eq(&section, &builddate_key) {
            pkg.build_date = parse_i64(&line);
        } else if chars_eq(&section, &depends_key) {
            let text = string_from_chars(&line);
            if let Some(dep) = DepSpec::parse(text.as_str()) {
                let ghost before = pkg.depends@;
                pkg.depends.push(dep);
                assert(dep_views(pkg.depends@) =~= dep_views(before).push(dep@));
            }
        } else if chars_eq(&section, &provides_key) {
            let text = string_from_chars(&line);
            if let Some(p) = Provide::parse(text.as_str()) {
                let ghost before = pkg.provides@;
                pkg.provides.push(p);
                assert(provide_views(pkg.provides@) =~= provide_views(before).push(p@));
            }
        }
    }
    assert(spec_lines.take(n as int) == spec_lines);
    pkg
}

} // verus!

verus! {

/// All packages known to the configured repositories. Later entries win
/// over earlier ones with the same name, as in a map keyed by name.
#[derive(Debug)]
pub struct SyncDb {
    pub packages: Vec<RepoPackageMeta>,
}

/// Index of the last package named `name`, or -1.
pub open spec fn last_meta_index(ps: Seq<RepoPackageMeta>, name: Seq<char>) -> int
    decreases ps.len(),
{
    if ps.len() == 0 {
        -1
    } else if ps.last().name@ == name {
        ps.len() - 1
    } else {
        last_meta_index(ps.drop_last(), name)
    }
}

proof fn lemma_last_meta_index(ps: Seq<RepoPackageMeta>, name: Seq<char>)
    ensures
        -1 <= last_meta_index(ps, name) < ps.len(),
        last_meta_index(ps, name) >= 0 ==> ps[last_meta_index(ps, name)].name@ == name,
    decreases ps.len(),
{
    if ps.len() > 0 && ps.last().name@ != name {
        lemma_last_meta_index(ps.drop_last(), name);
    }
}

impl Default for SyncDb {
    fn default() -> (r: Self)
        ensures
            r.packages@.len() == 0,
    {
        SyncDb { packages: Vec::new() }
    }
}

impl SyncDb {
    /// The metadata recorded under `name`, if any.
    pub open spec fn lookup(self, name: Seq<char>) -> Option<MetaView> {
        let i = last_meta_index(self.packages@, name);
        if i >= 0 {
            Some(self.packages@[i]@)
        } else {
            None
        }
    }

    /// Record `meta` under its name, replacing what was recorded before.
    pub fn insert(&mut self, meta: RepoPackageMeta)
        ensures
            final(self).packages@ == old(self).packages@.push(meta),
    {
        self.packages.push(meta);
    }

    pub fn get(&self, name: &str) -> (r: Option<&RepoPackageMeta>)
        ensures
            match r {
                Some(m) => {
                    let i = last_meta_index(self.packages@, name@);
                    i >= 0 && *m == self.packages@[i]
                },
                None => last_meta_index(self.packages@, name@) == -1,
            },
    {
        let mut i = self.packages.len();
        assert(self.packages@.take(i as int) == self.packages@);
        while i > 0
            invariant
                i <= self.packages@.len(),
                last_meta_index(self.packages@, name@) == last_meta_index(
                    self.packages@.take(i as int),
                    name@,
                ),
            decreases i,
        {
            let ghost t = self.packages@.take(i as int);
            assert(t.last() == self.packages@[i - 1]);
            assert(t.drop_last() == self.packages@.take(i - 1));
            if str_eq(self.packages[i - 1].name.as_str(), name) {
                return Some(&self.packages[i - 1]);
            }
            i = i - 1;
        }
        None
    }

    pub fn len(&self) -> (r: usize)
        ensures
            r == self.packages@.len(),
    {
        self.packages.len()
    }
}

/// An installed package from the local pacman database.
#[derive(Debug, Clone, PartialEq, Eq)]
pub struct InstalledPackage {
    pub version: String,
    pub provides: Vec<Provide>,
}

/// The abstract value of an [`InstalledPackage`].
pub struct InstalledView {
    pub version: Seq<char>,
    pub provides: Seq<ProvideView>,
}

impl View for InstalledPackage {
    type V = InstalledView;

    open spec fn view(&self) -> InstalledView {
        InstalledView { version: self.version@, provides: provide_views(self.provides@) }
    }
}

/// Installed packages from the local pacman database; the providers of a
/// `%PROVIDES%` capability are looked up over the installed packages, so
/// they always follow what is installed.
#[derive(Debug)]
pub struct LocalDb {
    /// One entry per installed package name.
    installed: Vec<(String, InstalledPackage)>,
}

/// Index of the first entry named `name`, or -1.
pub open spec fn first_entry_index(es: Seq<(String, InstalledPackage)>, name: Seq<char>) -> int
    decreases es.len(),
{
    if es.len() == 0 {
        -1
    } else if es[0].0@ == name {
        0
    } else {
        let r = first_entry_index(es.drop_first(), name);
        if r < 0 {
            -1
        } else {
            r + 1
        }
    }
}

proof fn lemma_first_entry_index(es: Seq<(String, InstalledPackage)>, name: Seq<char>)
    ensures
        -1 <= first_entry_index(es, name) < es.len(),
        first_entry_index(es, name) >= 0 ==> es[first_entry_index(es, name)].0@ == name,
        forall|k: int|
            0 <= k < es.len() && (first_entry_index(es, name) == -1 || k < first_entry_index(
                es,
                name,
            )) ==> es[k].0@ != name,
    decreases es.len(),
{
    if es.len() > 0 && es[0].0@ != name {
        lemma_first_entry_index(es.drop_first(), name);
        assert forall|k: int|
            0 <= k < es.len() && (first_entry_index(es, name) == -1 || k < first_entry_index(
                es,
                name,
            )) implies es[k].0@ != name by {
            if k > 0 {
                assert(es[k] == es.drop_first()[k - 1]);
            }
        }
    }
}

proof fn lemma_first_entry_index_is(es: Seq<(String, InstalledPackage)>, name: Seq<char>, a: int)
    requires
        -1 <= a < es.len(),
        a >= 0 ==> es[a].0@ == name,
        forall|k: int| 0 <= k < es.len() && (a == -1 || k < a) ==> #[trigger] es[k].0@ != name,
    ensures
        first_entry_index(es, name) == a,
{
    lemma_first_entry_index(es, name);
    let f = first_entry_index(es, name);
    if f >= 0 && (a == -1 || f < a) {
        assert(es[f].0@ != name);
    }
    if a >= 0 && (f == -1 || a < f) {
        assert(es[a].0@ != name);
    }
}

/// The installed packages among `es` whose provides list `cap`, in order.
pub open spec fn providers_from(es: Seq<(String, InstalledPackage)>, cap: Seq<char>) -> Seq<Seq<char>>
    decreases es.len(),
{
    if es.len() == 0 {
        seq![]
    } else if provided_in(es.last().1@.provides, cap) is Some {
        providers_from(es.drop_last(), cap).push(es.last().0@)
    } else {
        providers_from(es.drop_last(), cap)
    }
}

/// The first provide entry for `cap` in `ps`: `Some(version)` when found.
pub open spec fn provided_in(ps: Seq<ProvideView>, cap: Seq<char>) -> Option<Option<Seq<char>>>
    decreases ps.len(),
{
    if ps.len() == 0 {
        None
    } else if ps[0].name == cap {
        Some(ps[0].version)
    } else {
        provided_in(ps.drop_first(), cap)
    }
}

impl Default for LocalDb {
    fn default() -> (r: Self)
        ensures
            r.wf(),
            forall|n: Seq<char>| #[trigger] r.installed_spec(n) is None,
            forall|c: Seq<char>| #[trigger] r.providers_spec(c) == Seq::<Seq<char>>::empty(),
    {
        let r = LocalDb { installed: Vec::new() };
        assert forall|c: Seq<char>| #[trigger] r.providers_spec(c) == Seq::<Seq<char>>::empty() by {
        }
        r
    }
}

impl LocalDb {
    /// The package installed under `name`, if any.
    pub closed spec fn installed_spec(self, name: Seq<char>) -> Option<InstalledView> {
        let i = first_entry_index(self.installed@, name);
        if i >= 0 {
            Some(self.installed@[i].1@)
        } else {
            None
        }
    }

    /// The installed version of `name`, if installed.
    pub open spec fn version_spec(self, name: Seq<char>) -> Option<Seq<char>> {
        match self.installed_spec(name) {
            Some(p) => Some(p.version),
            None => None,
        }
    }

    /// Which version `name` provides `cap` with: `None` when `name` is not
    /// installed or does not provide `cap`.
    pub open spec fn provided_version_spec(self, name: Seq<char>, cap: Seq<char>) -> Option<
        Option<Seq<char>>,
    > {
        match self.installed_spec(name) {
            Some(p) => provided_in(p.provides, cap),
            None => None,
        }
    }

    /// Well-formed: no package name is installed twice.
    pub closed spec fn wf(self) -> bool {
        forall|i: int, j: int|
            0 <= i < j < self.installed@.len() ==> #[trigger] self.installed@[i].0@
                != #[trigger] self.installed@[j].0@
    }

    /// Installed packages that provide `cap`, in the order they were first
    /// installed.
    pub closed spec fn providers_spec(self, cap: Seq<char>) -> Seq<Seq<char>> {
        providers_from(self.installed@, cap)
    }

    /// Number of distinct installed packages.
    pub closed spec fn count_spec(self) -> nat {
        self.installed@.len()
    }

    /// Insert a package, replacing an earlier package of the same name; the
    /// providers of every capability follow.
    pub fn insert(&mut self, name: String, pkg: InstalledPackage)
        requires
            old(self).wf(),
        ensures
            final(self).wf(),
            forall|n: Seq<char>| #[trigger]
                final(self).installed_spec(n) == if n == name@ {
                    Some(pkg@)
                } else {
                    old(self).installed_spec(n)
                },
    {
        let ghost old_installed = self.installed@;
        let mut i: usize = 0;
        while i < self.installed.len()
            invariant
                i <= self.installed@.len(),
                self.installed@ == old_installed,
                old_installed == old(self).installed@,
                old(self).wf(),
                forall|k: int| 0 <= k < i ==> #[trigger] self.installed@[k].0@ != name@,
            decreases self.installed@.len() - i,
        {
            if str_eq(self.installed[i].0.as_str(), name.as_str()) {
                let ghost pv = pkg@;
                let ghost entry_name = name@;
                self.installed.set(i, (name, pkg));
                proof {
                    let es = self.installed@;
                    assert forall|a: int| 0 <= a < es.len() implies es[a].0@ == old_installed[a].0@ by {
                    }
                    assert(self.wf());
                    assert forall|n: Seq<char>| #[trigger]
                        self.installed_spec(n) == if n == entry_name {
                            Some(pv)
                        } else {
                            old_installed_spec(old_installed, n)
                        } by {
                        if n == entry_name {
                            lemma_first_entry_index_is(es, n, i as int);
                        } else {
                            lemma_first_entry_index(old_installed, n);
                            let b = first_entry_index(old_installed, n);
                            assert forall|k: int|
                                0 <= k < es.len() && (b == -1 || k < b) implies #[trigger] es[k].0@
                                != n by {
                                if k != i {
                                    assert(es[k] == old_installed[k]);
                                }
                            }
                            if b >= 0 {
                                assert(b != i);
                                assert(es[b] == old_installed[b]);
                            }
                            lemma_first_entry_index_is(es, n, b);
                        }
                    }
                }
                return;
            }
            i = i + 1;
        }
        let ghost pv = pkg@;
        let ghost entry_name = name@;
        self.installed.push((name, pkg));
        proof {
            let es = self.installed@;
            assert forall|a: int, b: int| 0 <= a < b < es.len() implies #[trigger] es[a].0@
                != #[trigger] es[b].0@ by {
                if b == es.len() - 1 {
                    assert(es[a] == old_installed[a]);
                } else {
                    assert(es[a] == old_installed[a]);
                    assert(es[b] == old_installed[b]);
                }
            }
            assert forall|n: Seq<char>| #[trigger]
                self.installed_spec(n) == if n == entry_name {
                    Some(pv)
                } else {
                    old_installed_spec(old_installed, n)
                } by {
                if n == entry_name {
                    assert forall|k: int|
                        0 <= k < es.len() && k < old_installed.len() implies #[trigger] es[k].0@
                        != n by {
                        assert(es[k] == old_installed[k]);
                    }
                    lemma_first_entry_index_is(es, n, old_installed.len() as int);
                } else {
                    lemma_first_entry_index(old_installed, n);
                    let b = first_entry_index(old_installed, n);
                    assert forall|k: int|
                        0 <= k < es.len() && (b == -1 || k < b) implies #[trigger] es[k].0@
                        != n by {
                        if k < old_installed.len() {
                            assert(es[k] == old_installed[k]);
                        }
                    }
                    if b >= 0 {
                        assert(es[b] == old_installed[b]);
                    }
                    lemma_first_entry_index_is(es, n, b);
                }
            }
        }
    }

    /// The installed version of `name`.
    pub fn version_of(&self, name: &str) -> (r: Option<&str>)
        ensures
            match r {
                Some(v) => self.version_spec(name@) == Some(v@),
                None => self.version_spec(name@) is None,
            },
    {
        match self.find_installed(name) {
            Some(i) => Some(self.installed[i].1.version.as_str()),
            None => None,
        }
    }

    fn find_installed(&self, name: &str) -> (r: Option<usize>)
        ensures
            match r {
                Some(i) => i == first_entry_index(self.installed@, name@) && i
                    < self.installed@.len(),
                None => first_entry_index(self.installed@, name@) == -1,
            },
    {
        proof {
            lemma_first_entry_index(self.installed@, name@);
        }
        let mut i: usize = 0;
        while i < self.installed.len()
            invariant
                i <= self.installed@.len(),
                forall|k: int| 0 <= k < i ==> #[trigger] self.installed@[k].0@ != name@,
            decreases self.installed@.len() - i,
        {
            if str_eq(self.installed[i].0.as_str(), name) {
                proof {
                    lemma_first_entry_index_is(self.installed@, name@, i as int);
                }
                return Some(i);
            }
            i = i + 1;
        }
        None
    }

    /// Packages installed on the system that provide the given capability.
    pub fn providers_of(&self, capability: &str) -> (r: Vec<String>)
        ensures
            r@.len() == self.providers_spec(capability@).len(),
            forall|k: int|
                0 <= k < r@.len() ==> #[trigger] r@[k]@ == self.providers_spec(capability@)[k],
    {
        let mut r: Vec<String> = Vec::new();
        let n = self.installed.len();
        for k in 0..n
            invariant
                n == self.installed@.len(),
                r@.len() == providers_from(self.installed@.take(k as int), capability@).len(),
                forall|j: int|
                    0 <= j < r@.len() ==> #[trigger] r@[j]@ == providers_from(
                        self.installed@.take(k as int),
                        capability@,
                    )[j],
        {
            let ghost t = self.installed@.take(k + 1);
            assert(t.drop_last() == self.installed@.take(k as int));
            assert(t.last() == self.installed@[k as int]);
            if provides_capability(&self.installed[k].1, capability) {
                r.push(self.installed[k].0.clone());
            }
        }
        assert(self.installed@.take(n as int) == self.installed@);
        r
    }

    /// Version with which `name` provides `capability`, if versioned.
    pub fn provided_version(&self, name: &str, capability: &str) -> (r: Option<Option<&str>>)
        ensures
            match self.installed_spec(name@) {
                None => r is None,
                Some(p) => match provided_in(p.provides, capability@) {
                    None => r is None,
                    Some(None) => r == Some(None::<&str>),
                    Some(Some(v)) => r matches Some(Some(x)) && x@ == v,
                },
            },
    {
        let i = match self.find_installed(name) {
            Some(i) => i,
            None => return None,
        };
        let pkg = &self.installed[i].1;
        assert(self.installed_spec(name@) == Some(pkg@));
        let n = pkg.provides.len();
        let ghost views = provide_views(pkg.provides@);
        assert(views.skip(0) == views);
        for k in 0..n
            invariant
                n == pkg.provides@.len(),
                views == provide_views(pkg.provides@),
                self.installed_spec(name@) == Some(pkg@),
                provided_in(views, capability@) == provided_in(views.skip(k as int), capability@),
        {
            assert(views.skip(k as int)[0] == pkg.provides@[k as int]@);
            assert(views.skip(k as int).drop_first() == views.skip(k + 1));
            if str_eq(pkg.provides[k].name.as_str(), capability) {
                assert(provided_in(views, capability@) == Some(pkg.provides@[k as int]@.version));
                let entry = &pkg.provides[k];
                assert(entry@ == pkg.provides@[k as int]@);
                match &entry.version {
                    Some(v) => {
                        assert(entry@.version == Some(v@));
                        let x = v.as_str();
                        return Some(Some(x));
                    },
                    None => {
                        return Some(None);
                    },
                }
            }
        }
        assert(views.skip(n as int).len() == 0);
        None
    }

    /// Number of installed packages.
    pub fn installed_count(&self) -> (r: usize)
        ensures
            r == self.count_spec(),
    {
        self.installed.len()
    }
}

/// Whether `pkg` provides `capability`.
fn provides_capability(pkg: &InstalledPackage, capability: &str) -> (r: bool)
    ensures
        r == (provided_in(pkg@.provides, capability@) is Some),
{
    let n = pkg.provides.len();
    let ghost views = provide_views(pkg.provides@);
    assert(views.skip(0) == views);
    for k in 0..n
        invariant
            n == pkg.provides@.len(),
            views == provide_views(pkg.provides@),
            views == pkg@.provides,
            provided_in(views, capability@) == provided_in(views.skip(k as int), capability@),
    {
        assert(views.skip(k as int)[0] == pkg.provides@[k as int]@);
        assert(views.skip(k as int).drop_first() == views.skip(k + 1));
        if str_eq(pkg.provides[k].name.as_str(), capability) {
            return true;
        }
    }
    assert(views.skip(n as int).len() == 0);
    false
}

proof fn lemma_providers_from(es: Seq<(String, InstalledPackage)>, cap: Seq<char>)
    ensures
        forall|n: Seq<char>|
            providers_from(es, cap).contains(n) <==> exists|k: int|
                0 <= k < es.len() && #[trigger] es[k].0@ == n && provided_in(es[k].1@.provides, cap)
                    is Some,
    decreases es.len(),
{
    if es.len() > 0 {
        let front = es.drop_last();
        lemma_providers_from(front, cap);
        let pf = providers_from(front, cap);
        assert forall|n: Seq<char>|
            providers_from(es, cap).contains(n) <==> exists|k: int|
                0 <= k < es.len() && #[trigger] es[k].0@ == n && provided_in(es[k].1@.provides, cap)
                    is Some by {
            if providers_from(es, cap).contains(n) {
                let a = choose|a: int| 0 <= a < providers_from(es, cap).len() && providers_from(es, cap)[a] == n;
                if a < pf.len() {
                    assert(pf[a] == n);
                    assert(pf.contains(n));
                    let k = choose|k: int| 0 <= k < front.len() && #[trigger] front[k].0@ == n
                        && provided_in(front[k].1@.provides, cap) is Some;
                    assert(es[k] == front[k]);
                } else {
                    assert(es[es.len() - 1] == es.last());
                }
            }
            if exists|k: int|
                0 <= k < es.len() && #[trigger] es[k].0@ == n && provided_in(es[k].1@.provides, cap)
                    is Some {
                let k = choose|k: int|
                    0 <= k < es.len() && #[trigger] es[k].0@ == n && provided_in(es[k].1@.provides, cap)
                        is Some;
                if k < es.len() - 1 {
                    assert(front[k] == es[k]);
                    assert(pf.contains(n));
                    let a = choose|a: int| 0 <= a < pf.len() && pf[a] == n;
                    assert(providers_from(es, cap)[a] == n);
                } else {
                    assert(providers_from(es, cap).last() == n);
                    assert(providers_from(es, cap)[providers_from(es, cap).len() - 1] == n);
                }
            }
        }
    }
}

proof fn lemma_providers_distinct(es: Seq<(String, InstalledPackage)>, cap: Seq<char>)
    requires
        forall|i: int, j: int| 0 <= i < j < es.len() ==> #[trigger] es[i].0@ != #[trigger] es[j].0@,
    ensures
        providers_from(es, cap).no_duplicates(),
    decreases es.len(),
{
    if es.len() > 0 {
        let front = es.drop_last();
        assert forall|i: int, j: int| 0 <= i < j < front.len() implies #[trigger] front[i].0@
            != #[trigger] front[j].0@ by {
            assert(front[i] == es[i] && front[j] == es[j]);
        }
        lemma_providers_distinct(front, cap);
        lemma_providers_from(front, cap);
        let pf = providers_from(front, cap);
        if provided_in(es.last().1@.provides, cap) is Some {
            let last = es.last().0@;
            if pf.contains(last) {
                let k = choose|k: int| 0 <= k < front.len() && #[trigger] front[k].0@ == last
                    && provided_in(front[k].1@.provides, cap) is Some;
                assert(es[k] == front[k]);
                assert(es[k].0@ != es[es.len() - 1].0@);
            }
            let r = pf.push(last);
            assert forall|i: int, j: int| 0 <= i < r.len() && 0 <= j < r.len() && i != j implies r[i]
                != r[j] by {
                if i < pf.len() && j < pf.len() {
                } else if i == pf.len() {
                    assert(pf[j] == r[j]);
                    assert(pf.contains(r[j]));
                } else {
                    assert(pf[i] == r[i]);
                    assert(pf.contains(r[i]));
                }
            }
        }
    }
}

impl LocalDb {
    /// The providers of a capability follow what is installed: a package is
    /// listed as a provider of `cap` exactly when it is installed and
    /// provides `cap`, and no package is listed twice. Re-installing a
    /// package under new provides updates this at once.
    pub proof fn lemma_providers_match_installed(self, cap: Seq<char>, name: Seq<char>)
        requires
            self.wf(),
        ensures
            self.providers_spec(cap).contains(name) <==> (self.installed_spec(name) matches Some(p)
                && provided_in(p.provides, cap) is Some),
            self.providers_spec(cap).no_duplicates(),
    {
        let es = self.installed@;
        lemma_providers_from(es, cap);
        lemma_providers_distinct(es, cap);
        lemma_first_entry_index(es, name);
        let f = first_entry_index(es, name);
        if self.providers_spec(cap).contains(name) {
            let k = choose|k: int| 0 <= k < es.len() && #[trigger] es[k].0@ == name
                && provided_in(es[k].1@.provides, cap) is Some;
            if f != k {
                if f < k {
                    assert(es[f].0@ == es[k].0@);
                } else {
                    assert(es[k].0@ != name);
                }
            }
        }
        if self.installed_spec(name) matches Some(p) && provided_in(p.provides, cap) is Some {
            assert(es[f].0@ == name);
        }
    }
}

/// The package installed under `name` in a list of entries.
pub closed spec fn old_installed_spec(es: Seq<(String, InstalledPackage)>, name: Seq<char>) -> Option<
    InstalledView,
> {
    let i = first_entry_index(es, name);
    if i >= 0 {
        Some(es[i].1@)
    } else {
        None
    }
}

} // verus!
