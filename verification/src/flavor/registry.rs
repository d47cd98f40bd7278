//! Flavor registry: the set of loaded flavors and the active one.
//!
//! The registry maps flavor names to flavors, holds one active-flavor
//! pointer, and resolves command lookups through the active flavor. An
//! embedded flavor guarantees the registry need never be empty.

use vstd::prelude::*;

use super::schema::{
    lemma_cs_find_at, lemma_cs_find_none, spec_cs_find, CommandDef, CommandSet, ConstraintType,
    Flavor, ParameterConstraint, ParameterConstraints, ParameterDef, ParameterType,
};
use crate::text::{
    chars_of, is_ascii_digit, is_ascii_letter, line_part, spec_upper, str_eq_ignore_case,
};

verus! {

/// First index in `fls` holding a flavor of exactly this name.
pub open spec fn spec_reg_find(fls: Seq<Flavor>, name: Seq<char>) -> Option<int>
    decreases fls.len(),
{
    if fls.len() == 0 {
        None
    } else if fls[0].name@ == name {
        Some(0)
    } else {
        match spec_reg_find(fls.drop_first(), name) {
            None => None,
            Some(i) => Some(1 + i),
        }
    }
}

pub proof fn lemma_spec_reg_find(fls: Seq<Flavor>, name: Seq<char>)
    ensures
        match spec_reg_find(fls, name) {
            Some(i) => 0 <= i < fls.len() && fls[i].name@ == name,
            None => forall|i: int| 0 <= i < fls.len() ==> (#[trigger] fls[i]).name@ != name,
        },
    decreases fls.len(),
{
    if fls.len() > 0 && fls[0].name@ != name {
        lemma_spec_reg_find(fls.drop_first(), name);
        if spec_reg_find(fls.drop_first(), name) is None {
            assert forall|i: int| 0 <= i < fls.len() implies (#[trigger] fls[i]).name@
                != name by {
                if i > 0 {
                    assert(fls.drop_first()[i - 1] == fls[i]);
                }
            }
        }
    }
}

/// The effect of inserting one flavor: the entry of the same name is
/// replaced, or the flavor is appended.
pub open spec fn spec_reg_insert(fls: Seq<Flavor>, f: Flavor) -> Seq<Flavor> {
    match spec_reg_find(fls, f.name@) {
        Some(i) => fls.update(i, f),
        None => fls.push(f),
    }
}

/// After an insert, the inserted flavor's name is present.
pub proof fn lemma_reg_insert_present(fls: Seq<Flavor>, f: Flavor)
    ensures
        spec_reg_find(spec_reg_insert(fls, f), f.name@) is Some,
{
    lemma_spec_reg_find(fls, f.name@);
    let out = spec_reg_insert(fls, f);
    match spec_reg_find(fls, f.name@) {
        Some(i) => {
            lemma_spec_reg_find(out, f.name@);
            if spec_reg_find(out, f.name@) is None {
                assert(out[i].name@ == f.name@);
            }
        },
        None => {
            lemma_spec_reg_find(out, f.name@);
            if spec_reg_find(out, f.name@) is None {
                assert(out[fls.len() as int].name@ == f.name@);
            }
        },
    }
}

/// The in-memory flavor registry.
#[derive(Debug)]
pub struct FlavorRegistry {
    flavors: Vec<Flavor>,
    active_flavor: Option<String>,
}

impl FlavorRegistry {
    /// The flavors held, by insertion order.
    pub closed spec fn spec_flavors(&self) -> Seq<Flavor> {
        self.flavors@
    }

    /// The name of the active flavor, if one was set.
    pub closed spec fn spec_active_name(&self) -> Option<Seq<char>> {
        match self.active_flavor {
            None => None,
            Some(ref n) => Some(n@),
        }
    }

    /// The index of the active flavor, if it is set and present.
    pub open spec fn spec_active(&self) -> Option<int> {
        match self.spec_active_name() {
            None => None,
            Some(n) => spec_reg_find(self.spec_flavors(), n),
        }
    }

    /// The command definition the registry resolves `name` to: the entry of
    /// the active flavor under the upper-cased name.
    pub open spec fn spec_get_command(&self, name: Seq<char>) -> Option<CommandDef> {
        match self.spec_active() {
            None => None,
            Some(fi) => match spec_cs_find(
                self.spec_flavors()[fi].commands@,
                spec_upper(name),
            ) {
                None => None,
                Some(ci) => Some(self.spec_flavors()[fi].commands@[ci]),
            },
        }
    }

    /// An empty registry with no active flavor.
    pub fn new() -> (r: FlavorRegistry)
        ensures
            r.spec_flavors() =~= Seq::<Flavor>::empty(),
            r.spec_active_name() is None,
    {
        FlavorRegistry { flavors: Vec::new(), active_flavor: None }
    }

    /// Insert a flavor, replacing an entry of the same name.
    pub fn add_flavor(&mut self, flavor: Flavor)
        ensures
            final(self).spec_flavors() == spec_reg_insert(old(self).spec_flavors(), flavor),
            final(self).spec_active_name() == old(self).spec_active_name(),
    {
        let n = self.flavors.len();
        let ghost fls0 = self.flavors@;
        proof {
            assert(fls0.skip(0) =~= fls0);
        }
        let mut i: usize = 0;
        while i < n
            invariant
                n == self.flavors@.len(),
                i <= n,
                self.flavors@ == fls0,
                old(self).flavors@ == fls0,
                self.active_flavor == old(self).active_flavor,
                spec_reg_find(fls0, flavor.name@) == match spec_reg_find(
                    fls0.skip(i as int),
                    flavor.name@,
                ) {
                    None => None::<int>,
                    Some(k) => Some(k + i),
                },
            decreases n - i,
        {
            let ghost rest = fls0.skip(i as int);
            proof {
                assert(rest[0] == fls0[i as int]);
            }
            if self.flavors[i].name == flavor.name {
                proof {
                    assert(spec_reg_find(rest, flavor.name@) == Some(0int));
                }
                self.flavors.set(i, flavor);
                return ;
            }
            proof {
                assert(rest.drop_first() =~= fls0.skip(i + 1));
            }
            i = i + 1;
        }
        proof {
            assert(fls0.skip(n as int) =~= Seq::<Flavor>::empty());
        }
        self.flavors.push(flavor);
    }

    /// Make `name` the active flavor. `false` exactly when no flavor of
    /// that name is held; the active flavor is then unchanged.
    pub fn set_active_flavor(&mut self, name: &str) -> (r: bool)
        ensures
            r == (spec_reg_find(old(self).spec_flavors(), name@) is Some),
            final(self).spec_flavors() == old(self).spec_flavors(),
            r ==> final(self).spec_active_name() == Some(name@),
            !r ==> final(self).spec_active_name() == old(self).spec_active_name(),
    {
        if self.find_index(name).is_some() {
            self.active_flavor = Some(name.to_owned());
            true
        } else {
            false
        }
    }

    /// Find the index of the flavor of exactly this name.
    fn find_index(&self, name: &str) -> (r: Option<usize>)
        ensures
            match spec_reg_find(self.spec_flavors(), name@) {
                Some(i) => r is Some && r->0 == i,
                None => r is None,
            },
    {
        let n = self.flavors.len();
        let ghost fls0 = self.flavors@;
        proof {
            assert(fls0.skip(0) =~= fls0);
        }
        let mut i: usize = 0;
        while i < n
            invariant
                n == self.flavors@.len(),
                self.flavors@ == fls0,
                i <= n,
                spec_reg_find(fls0, name@) == match spec_reg_find(fls0.skip(i as int), name@) {
                    None => None::<int>,
                    Some(k) => Some(k + i),
                },
            decreases n - i,
        {
            let ghost rest = fls0.skip(i as int);
            proof {
                assert(rest[0] == fls0[i as int]);
            }
            if crate::text::str_eq(self.flavors[i].name.as_str(), name) {
                proof {
                    assert(spec_reg_find(rest, name@) == Some(0int));
                }
                return Some(i);
            }
            proof {
                assert(rest.drop_first() =~= fls0.skip(i + 1));
            }
            i = i + 1;
        }
        proof {
            assert(fls0.skip(n as int) =~= Seq::<Flavor>::empty());
        }
        None
    }

    /// The flavor of exactly this name, if it is held.
    pub fn get_flavor(&self, name: &str) -> (r: Option<&Flavor>)
        ensures
            match spec_reg_find(self.spec_flavors(), name@) {
                Some(i) => r is Some && *r->0 == self.spec_flavors()[i],
                None => r is None,
            },
    {
        proof {
            lemma_spec_reg_find(self.spec_flavors(), name@);
        }
        match self.find_index(name) {
            Some(i) => Some(&self.flavors[i]),
            None => None,
        }
    }

    /// The currently active flavor, if one is set and still present.
    pub fn get_active_flavor(&self) -> (r: Option<&Flavor>)
        ensures
            match self.spec_active() {
                Some(i) => r is Some && *r->0 == self.spec_flavors()[i],
                None => r is None,
            },
    {
        match &self.active_flavor {
            None => None,
            Some(name) => {
                proof {
                    lemma_spec_reg_find(self.spec_flavors(), name@);
                }
                match self.find_index(name.as_str()) {
                    Some(i) => Some(&self.flavors[i]),
                    None => None,
                }
            },
        }
    }

    /// Look a command up in the active flavor, case-insensitively.
    pub fn get_command(&self, name: &str) -> (r: Option<&CommandDef>)
        ensures
            match self.spec_get_command(name@) {
                Some(c) => r is Some && *r->0 == c,
                None => r is None,
            },
    {
        match self.get_active_flavor() {
            None => None,
            Some(flavor) => flavor.commands.get(name),
        }
    }

    /// The names of all flavors held.
    pub fn list_flavors(&self) -> (r: Vec<String>)
        ensures
            r@.map_values(|s: String| s@) == self.spec_flavors().map_values(
                |f: Flavor| f.name@,
            ),
    {
        let n = self.flavors.len();
        let mut out: Vec<String> = Vec::new();
        while out.len() < n
            invariant
                n == self.flavors@.len(),
                out@.len() <= n,
                out@.map_values(|s: String| s@) =~= self.flavors@.map_values(
                    |f: Flavor| f.name@,
                ).take(out@.len() as int),
            decreases n - out.len(),
        {
            let i = out.len();
            out.push(self.flavors[i].name.clone());
            proof {
                assert(out@.map_values(|s: String| s@) =~= self.flavors@.map_values(
                    |f: Flavor| f.name@,
                ).take(out@.len() as int));
            }
        }
        proof {
            assert(self.flavors@.map_values(|f: Flavor| f.name@).take(n as int)
                =~= self.flavors@.map_values(|f: Flavor| f.name@));
        }
        out
    }
}


/// Spaces and tabs may surround the '=' of a modeline.
pub open spec fn is_ml_space(c: char) -> bool {
    c == ' ' || c == '\t'
}

/// A flavor identifier: ASCII alphanumerics, '_' and '-'.
pub open spec fn is_ident_char(c: char) -> bool {
    is_ascii_letter(c) || is_ascii_digit(c) || c == '_' || c == '-'
}

/// First index at or after `j` holding no space or tab, or the length.
pub open spec fn skip_ws(line: Seq<char>, j: int) -> int
    decreases line.len() - j,
    when 0 <= j <= line.len()
{
    if j >= line.len() || !is_ml_space(line[j]) {
        j
    } else {
        skip_ws(line, j + 1)
    }
}

pub proof fn lemma_skip_ws_bounds(line: Seq<char>, j: int)
    requires
        0 <= j <= line.len(),
    ensures
        j <= skip_ws(line, j) <= line.len(),
    decreases line.len() - j,
{
    if j < line.len() && is_ml_space(line[j]) {
        lemma_skip_ws_bounds(line, j + 1);
    }
}

/// First index at or after `j` that does not continue an identifier.
pub open spec fn ident_end(line: Seq<char>, j: int) -> int
    decreases line.len() - j,
    when 0 <= j <= line.len()
{
    if j >= line.len() || !is_ident_char(line[j]) {
        j
    } else {
        ident_end(line, j + 1)
    }
}

pub proof fn lemma_ident_end_bounds(line: Seq<char>, j: int)
    requires
        0 <= j <= line.len(),
    ensures
        j <= ident_end(line, j) <= line.len(),
    decreases line.len() - j,
{
    if j < line.len() && is_ident_char(line[j]) {
        lemma_ident_end_bounds(line, j + 1);
    }
}

/// The flavor name of a modeline directive starting at index `i`:
/// `gcode_flavor`, optional spaces, '=', optional spaces, then a non-empty
/// identifier.
pub open spec fn spec_modeline_at(line: Seq<char>, i: int) -> Option<Seq<char>> {
    if 0 <= i && i + 12 <= line.len() && line.subrange(i, i + 12) == "gcode_flavor"@ {
        let a = skip_ws(line, i + 12);
        if a < line.len() && line[a] == '=' {
            let b = skip_ws(line, a + 1);
            let e = ident_end(line, b);
            if e > b {
                Some(line.subrange(b, e))
            } else {
                None
            }
        } else {
            None
        }
    } else {
        None
    }
}

/// The first modeline directive in a line, scanning from index `i`.
pub open spec fn spec_scan_modeline(line: Seq<char>, i: int) -> Option<Seq<char>>
    decreases line.len() - i,
    when 0 <= i
{
    if i + 12 > line.len() {
        None
    } else {
        match spec_modeline_at(line, i) {
            Some(v) => Some(v),
            None => spec_scan_modeline(line, i + 1),
        }
    }
}

/// The flavor name a line's modeline directive names, if any.
pub open spec fn spec_extract_modeline(line: Seq<char>) -> Option<Seq<char>> {
    spec_scan_modeline(line, 0)
}

/// Extract the flavor name from a modeline directive in `line`: the first
/// occurrence of `gcode_flavor`, whitespace-tolerant around the '=', with
/// an identifier of ASCII alphanumerics, '_' and '-'.
pub fn extract_flavor_from_modeline(line: &str) -> (r: Option<String>)
    ensures
        match spec_extract_modeline(line@) {
            Some(v) => r is Some && r->0@ == v,
            None => r is None,
        },
{
    let cs = chars_of(line);
    let n = cs.len();
    let pat = chars_of("gcode_flavor");
    if n < 12 {
        return None;
    }
    let mut i: usize = 0;
    proof {
        reveal_strlit("gcode_flavor");
        assert(pat@ == "gcode_flavor"@);
    }
    while i <= n - 12
        invariant
            cs@ == line@,
            n == cs@.len(),
            pat@ == "gcode_flavor"@,
            pat@.len() == 12,
            12 <= n,
            i <= n,
            spec_scan_modeline(line@, 0) == spec_scan_modeline(line@, i as int),
        decreases n - i,
    {
        // compare the pattern at position i
        let mut k: usize = 0;
        while k < 12 && cs[i + k] == pat[k]
            invariant
                cs@ == line@,
                n == cs@.len(),
                pat@ == "gcode_flavor"@,
                pat@.len() == 12,
                i + 12 <= n,
                k <= 12,
                forall|m: int| 0 <= m < k ==> cs@[i + m] == pat@[m],
            decreases 12 - k,
        {
            k = k + 1;
        }
        if k == 12 {
            proof {
                assert(line@.subrange(i as int, i + 12) =~= "gcode_flavor"@);
            }
            // optional spaces, '=', optional spaces, identifier
            let mut a = i + 12;
            while a < n && (cs[a] == ' ' || cs[a] == '\t')
                invariant
                    cs@ == line@,
                    n == cs@.len(),
                    i + 12 <= a <= n,
                    skip_ws(line@, i + 12) == skip_ws(line@, a as int),
                decreases n - a,
            {
                a = a + 1;
            }
            proof {
                assert(a == skip_ws(line@, i + 12));
            }
            if a < n && cs[a] == '=' {
                let mut b = a + 1;
                while b < n && (cs[b] == ' ' || cs[b] == '\t')
                    invariant
                        cs@ == line@,
                        n == cs@.len(),
                        a + 1 <= b <= n,
                        skip_ws(line@, a + 1) == skip_ws(line@, b as int),
                    decreases n - b,
                {
                    b = b + 1;
                }
                proof {
                    assert(b == skip_ws(line@, a + 1));
                }
                let mut e = b;
                while e < n && ident_char(cs[e])
                    invariant
                        cs@ == line@,
                        n == cs@.len(),
                        b <= e <= n,
                        ident_end(line@, b as int) == ident_end(line@, e as int),
                    decreases n - e,
                {
                    e = e + 1;
                }
                proof {
                    assert(e == ident_end(line@, b as int));
                }
                if e > b {
                    proof {
                        assert(spec_modeline_at(line@, i as int) == Some(
                            line@.subrange(b as int, e as int),
                        ));
                    }
                    return Some(line_part(line, b, e));
                }
            }
        }
        proof {
            if k < 12 {
                assert(cs@[i + k as int] != pat@[k as int]);
                assert(line@.subrange(i as int, i + 12) != "gcode_flavor"@) by {
                    assert(line@.subrange(i as int, i + 12)[k as int] != "gcode_flavor"@[k
                        as int]);
                };
            }
            assert(spec_modeline_at(line@, i as int) is None);
        }
        i = i + 1;
    }
    proof {
        assert(spec_scan_modeline(line@, i as int) is None);
    }
    None
}

/// Exec test for an identifier character.
fn ident_char(c: char) -> (r: bool)
    ensures
        r == is_ident_char(c),
{
    crate::text::ascii_letter(c) || crate::text::ascii_digit(c) || c == '_' || c == '-'
}


/// The lines a modeline may stand on: all of them for a short document,
/// else the first five and the last five.
pub open spec fn spec_check_lines(lines: Seq<Seq<char>>) -> Seq<Seq<char>> {
    if lines.len() <= 10 {
        lines
    } else {
        lines.take(5) + lines.skip(lines.len() - 5)
    }
}

/// The first candidate line whose modeline names a flavor that `fls` holds.
pub open spec fn spec_detect_checked(lines: Seq<Seq<char>>, fls: Seq<Flavor>) -> Option<
    Seq<char>,
>
    decreases lines.len(),
{
    if lines.len() == 0 {
        None
    } else {
        match spec_extract_modeline(lines[0]) {
            Some(v) => if spec_reg_find(fls, v) is Some {
                Some(v)
            } else {
                spec_detect_checked(lines.drop_first(), fls)
            },
            None => spec_detect_checked(lines.drop_first(), fls),
        }
    }
}

/// Collect the candidate modeline lines of a document.
pub(crate) fn check_lines_of(content: &str) -> (r: Vec<String>)
    ensures
        crate::text::lines_views(r@) == spec_check_lines(
            crate::text::spec_lines(content@),
        ),
{
    let lines = crate::text::split_lines(content);
    let n = lines.len();
    let ghost ls = crate::text::spec_lines(content@);
    if n <= 10 {
        proof {
            assert(crate::text::lines_views(lines@) == ls);
        }
        lines
    } else {
        let mut out: Vec<String> = Vec::new();
        let mut i: usize = 0;
        while i < 5
            invariant
                crate::text::lines_views(lines@) == ls,
                n == lines@.len(),
                10 < n,
                i <= 5,
                out@.len() == i,
                crate::text::lines_views(out@) =~~= ls.take(i as int),
            decreases 5 - i,
        {
            let ghost prev = out@;
            let ghost gi = i as int;
            let ln = lines[i].clone();
            proof {
                assert(ln == lines@[gi]);
                assert(ln@ == ls[gi]);
            }
            out.push(ln);
            i = i + 1;
            proof {
                assert(out@ == prev.push(ln));
                assert forall|k: int| 0 <= k < i implies crate::text::lines_views(out@)[k]
                    == ls.take(i as int)[k] by {
                    if k < gi {
                        assert(out@[k] == prev[k]);
                        assert(crate::text::lines_views(prev)[k] == ls.take(gi)[k]);
                    } else {
                        assert(out@[k] == ln);
                    }
                }
                assert(crate::text::lines_views(out@) =~~= ls.take(i as int));
            }
        }
        let mut j: usize = n - 5;
        while j < n
            invariant
                crate::text::lines_views(lines@) == ls,
                n == lines@.len(),
                10 < n,
                n - 5 <= j <= n,
                out@.len() == 5 + j - (n - 5),
                crate::text::lines_views(out@) =~~= ls.take(5) + ls.skip(n - 5).take(
                    j - (n - 5),
                ),
            decreases n - j,
        {
            let ghost prev = out@;
            let ghost gj = j as int;
            let ghost rhs0 = ls.take(5) + ls.skip(n - 5).take(gj - (n - 5));
            let ln = lines[j].clone();
            proof {
                assert(ln == lines@[gj]);
                assert(ln@ == ls[gj]);
            }
            out.push(ln);
            j = j + 1;
            proof {
                let rhs1 = ls.take(5) + ls.skip(n - 5).take(j - (n - 5));
                assert(out@ == prev.push(ln));
                assert forall|k: int| 0 <= k < out@.len() implies crate::text::lines_views(
                    out@,
                )[k] == rhs1[k] by {
                    if k < prev.len() {
                        assert(out@[k] == prev[k]);
                        assert(crate::text::lines_views(prev)[k] == rhs0[k]);
                        assert(rhs0[k] == rhs1[k]);
                    } else {
                        assert(out@[k] == ln);
                        assert(rhs1[k] == ls.skip(n - 5)[gj - (n - 5)]);
                        assert(ls.skip(n - 5)[gj - (n - 5)] == ls[gj]);
                    }
                }
                assert(crate::text::lines_views(out@) =~~= rhs1);
            }
        }
        proof {
            assert(ls.skip(n - 5).take(5) =~~= ls.skip(n - 5));
            assert(crate::text::lines_views(out@) =~~= spec_check_lines(ls));
        }
        out
    }
}

impl FlavorRegistry {
    /// Detect an in-document flavor override: scan the first five and last
    /// five lines (or all lines of a short document) for a modeline naming
    /// a flavor this registry holds; the first such name wins. A modeline
    /// naming an unknown flavor is ignored.
    pub fn detect_modeline_flavor(&self, content: &str) -> (r: Option<String>)
        ensures
            match spec_detect_checked(
                spec_check_lines(crate::text::spec_lines(content@)),
                self.spec_flavors(),
            ) {
                Some(v) => r is Some && r->0@ == v,
                None => r is None,
            },
    {
        let candidates = check_lines_of(content);
        let ghost cands = crate::text::lines_views(candidates@);
        let n = candidates.len();
        proof {
            assert(cands.skip(0) =~= cands);
        }
        let mut i: usize = 0;
        while i < n
            invariant
                cands == crate::text::lines_views(candidates@),
                cands == spec_check_lines(crate::text::spec_lines(content@)),
                n == candidates@.len(),
                i <= n,
                spec_detect_checked(cands, self.spec_flavors()) == spec_detect_checked(
                    cands.skip(i as int),
                    self.spec_flavors(),
                ),
            decreases n - i,
        {
            let ghost rest = cands.skip(i as int);
            proof {
                assert(rest[0] == cands[i as int]);
                assert(rest.drop_first() =~= cands.skip(i + 1));
            }
            match extract_flavor_from_modeline(candidates[i].as_str()) {
                Some(name) => {
                    proof {
                        assert(spec_extract_modeline(cands[i as int]) == Some(name@));
                    }
                    if self.find_index(name.as_str()).is_some() {
                        proof {
                            assert(spec_detect_checked(rest, self.spec_flavors()) == Some(
                                name@,
                            ));
                        }
                        return Some(name);
                    }
                },
                None => {
                },
            }
            i = i + 1;
        }
        proof {
            assert(cands.skip(n as int) =~= Seq::<Seq<char>>::empty());
        }
        None
    }

    /// Install the embedded default flavor, compiled into the binary: the
    /// registry afterwards holds a flavor named "prusa" whose command set
    /// is exactly the embedded definition, every other entry is kept, and
    /// the registry is never left empty.
    pub fn add_embedded_prusa_flavor(&mut self)
        ensures
            (exists|f: Flavor|
                {
                    &&& final(self).spec_flavors() == #[trigger] spec_reg_insert(
                        old(self).spec_flavors(),
                        f,
                    )
                    &&& f.name@ == "prusa"@
                    &&& spec_embedded_prusa_set(f.commands@)
                }),
            spec_reg_find(final(self).spec_flavors(), "prusa"@) is Some,
            final(self).spec_flavors().len() >= 1,
            final(self).spec_active_name() == old(self).spec_active_name(),
    {
        proof {
            lemma_embedded_names();
        }
        let c0 = move_command_def("G0", "Rapid move", false);
        let c1 = move_command_def("G1", "Linear move", true);
        let c2 = CommandDef {
            name: "G28".to_owned(),
            description_short: Some("Home axes".to_owned()),
            description_long: Some(
                "Home the given axes, or all axes when none is named".to_owned(),
            ),
            parameters: Some(
                vec![
                    axis_flag_def("X", "Home the X axis"),
                    axis_flag_def("Y", "Home the Y axis"),
                    axis_flag_def("Z", "Home the Z axis"),
                ],
            ),
            constraints: None,
        };
        let c3 = plain_command_def("G90", "Absolute positioning");
        let c4 = plain_command_def("G91", "Relative positioning");
        let c5 = temperature_command_def("M104", "Set hotend temperature", 300);
        let c6 = temperature_command_def("M140", "Set bed temperature", 120);
        let ghost g0 = c0;
        let ghost g1 = c1;
        let ghost g2 = c2;
        let ghost g3 = c3;
        let ghost g4 = c4;
        let ghost g5 = c5;
        let ghost g6 = c6;
        proof {
            assert(is_embedded_home_def(g2)) by {
                assert(g2.parameters->0@ =~= seq![
                    g2.parameters->0@[0],
                    g2.parameters->0@[1],
                    g2.parameters->0@[2],
                ]);
            };
        }
        let mut commands = CommandSet::new();
        commands.insert(c0);
        proof {
            lemma_cs_find_none(Seq::<CommandDef>::empty(), spec_upper(g0.name@));
            assert(commands@ =~= seq![g0]);
        }
        let ghost prev1 = commands@;
        commands.insert(c1);
        proof {
            assert forall|i: int| 0 <= i < prev1.len() implies spec_upper(
                (#[trigger] prev1[i]).name@,
            ) != spec_upper(g1.name@) by {
                assert(prev1[i] == g0);
            }
            lemma_cs_find_none(prev1, spec_upper(g1.name@));
            assert(commands@ =~= seq![g0, g1]);
        }
        let ghost prev2 = commands@;
        commands.insert(c2);
        proof {
            assert forall|i: int| 0 <= i < prev2.len() implies spec_upper(
                (#[trigger] prev2[i]).name@,
            ) != spec_upper(g2.name@) by {
                if i == 0 {
                    assert(prev2[i] == g0);
                } else {
                    assert(prev2[i] == g1);
                }
            }
            lemma_cs_find_none(prev2, spec_upper(g2.name@));
            assert(commands@ =~= seq![g0, g1, g2]);
        }
        let ghost prev3 = commands@;
        commands.insert(c3);
        proof {
            assert forall|i: int| 0 <= i < prev3.len() implies spec_upper(
                (#[trigger] prev3[i]).name@,
            ) != spec_upper(g3.name@) by {
                if i == 0 {
                    assert(prev3[i] == g0);
                } else if i == 1 {
                    assert(prev3[i] == g1);
                } else {
                    assert(prev3[i] == g2);
                }
            }
            lemma_cs_find_none(prev3, spec_upper(g3.name@));
            assert(commands@ =~= seq![g0, g1, g2, g3]);
        }
        let ghost prev4 = commands@;
        commands.insert(c4);
        proof {
            assert forall|i: int| 0 <= i < prev4.len() implies spec_upper(
                (#[trigger] prev4[i]).name@,
            ) != spec_upper(g4.name@) by {
                if i == 0 {
                    assert(prev4[i] == g0);
                } else if i == 1 {
                    assert(prev4[i] == g1);
                } else if i == 2 {
                    assert(prev4[i] == g2);
                } else {
                    assert(prev4[i] == g3);
                }
            }
            lemma_cs_find_none(prev4, spec_upper(g4.name@));
            assert(commands@ =~= seq![g0, g1, g2, g3, g4]);
        }
        let ghost prev5 = commands@;
        commands.insert(c5);
        proof {
            assert forall|i: int| 0 <= i < prev5.len() implies spec_upper(
                (#[trigger] prev5[i]).name@,
            ) != spec_upper(g5.name@) by {
                if i == 0 {
                    assert(prev5[i] == g0);
                } else if i == 1 {
                    assert(prev5[i] == g1);
                } else if i == 2 {
                    assert(prev5[i] == g2);
                } else if i == 3 {
                    assert(prev5[i] == g3);
                } else {
                    assert(prev5[i] == g4);
                }
            }
            lemma_cs_find_none(prev5, spec_upper(g5.name@));
            assert(commands@ =~= seq![g0, g1, g2, g3, g4, g5]);
        }
        let ghost prev6 = commands@;
        commands.insert(c6);
        proof {
            assert forall|i: int| 0 <= i < prev6.len() implies spec_upper(
                (#[trigger] prev6[i]).name@,
            ) != spec_upper(g6.name@) by {
                if i == 0 {
                    assert(prev6[i] == g0);
                } else if i == 1 {
                    assert(prev6[i] == g1);
                } else if i == 2 {
                    assert(prev6[i] == g2);
                } else if i == 3 {
                    assert(prev6[i] == g3);
                } else if i == 4 {
                    assert(prev6[i] == g4);
                } else {
                    assert(prev6[i] == g5);
                }
            }
            lemma_cs_find_none(prev6, spec_upper(g6.name@));
            assert(commands@ =~= seq![g0, g1, g2, g3, g4, g5, g6]);
        }
        let flavor = Flavor {
            name: "prusa".to_owned(),
            version: Some("embedded".to_owned()),
            description: Some("Embedded Prusa-style flavor".to_owned()),
            commands,
        };
        let ghost fls0 = self.flavors@;
        let ghost f = flavor;
        proof {
            lemma_embedded_set_lookups(f.commands@, g0, g1, g2, g3, g4, g5, g6);
            assert(spec_embedded_prusa_set(f.commands@));
        }
        self.add_flavor(flavor);
        proof {
            lemma_reg_insert_present(fls0, f);
            lemma_spec_reg_find(fls0, f.name@);
        }
    }

    /// Install the minimal fallback flavor, a couple of core commands, for
    /// use when a fuller definition cannot be had: the registry afterwards
    /// holds a flavor named "prusa" defining G0 and G1, every other entry
    /// is kept, and the registry is never left empty.
    pub fn add_minimal_prusa_flavor(&mut self)
        ensures
            (exists|f: Flavor|
                {
                    &&& final(self).spec_flavors() == #[trigger] spec_reg_insert(
                        old(self).spec_flavors(),
                        f,
                    )
                    &&& f.name@ == "prusa"@
                    &&& spec_minimal_prusa_set(f.commands@)
                }),
            spec_reg_find(final(self).spec_flavors(), "prusa"@) is Some,
            final(self).spec_flavors().len() >= 1,
            final(self).spec_active_name() == old(self).spec_active_name(),
    {
        proof {
            lemma_embedded_names();
        }
        let c0 = plain_command_def("G0", "Rapid positioning");
        let c1 = plain_command_def("G1", "Linear move");
        let ghost g0 = c0;
        let ghost g1 = c1;
        let mut commands = CommandSet::new();
        commands.insert(c0);
        proof {
            lemma_cs_find_none(Seq::<CommandDef>::empty(), spec_upper(g0.name@));
            assert(commands@ =~= seq![g0]);
        }
        let ghost mprev = commands@;
        commands.insert(c1);
        proof {
            assert forall|i: int| 0 <= i < mprev.len() implies spec_upper(
                (#[trigger] mprev[i]).name@,
            ) != spec_upper(g1.name@) by {
                assert(mprev[i] == g0);
            }
            lemma_cs_find_none(mprev, spec_upper(g1.name@));
            assert(commands@ =~= seq![g0, g1]);
        }
        let flavor = Flavor {
            name: "prusa".to_owned(),
            version: Some("minimal-fallback".to_owned()),
            description: Some("Minimal fallback flavor".to_owned()),
            commands,
        };
        let ghost fls0 = self.flavors@;
        let ghost f = flavor;
        proof {
            lemma_cs_find_at(f.commands@, "G0"@, 0);
            assert forall|i: int| 0 <= i < 1 implies spec_upper(
                (#[trigger] f.commands@[i]).name@,
            ) != "G1"@ by {
                assert(f.commands@[i] == g0);
            }
            lemma_cs_find_at(f.commands@, "G1"@, 1);
            assert(spec_minimal_prusa_set(f.commands@));
        }
        self.add_flavor(flavor);
        proof {
            lemma_reg_insert_present(fls0, f);
            lemma_spec_reg_find(fls0, f.name@);
        }
    }
}

/// An optional float parameter with no further constraints.
pub open spec fn is_float_axis(p: ParameterDef, name: Seq<char>) -> bool {
    &&& p.name@ == name
    &&& p.param_type == ParameterType::Float
    &&& !p.required
    &&& p.constraints is None
    &&& p.aliases is None
}

/// An optional flag-style parameter with no further constraints.
pub open spec fn is_flag_axis(p: ParameterDef, name: Seq<char>) -> bool {
    &&& p.name@ == name
    &&& p.param_type == ParameterType::Bool
    &&& !p.required
    &&& p.constraints is None
    &&& p.aliases is None
}

/// The feedrate parameter: an optional float of at least one unit.
pub open spec fn is_feedrate(p: ParameterDef) -> bool {
    &&& p.name@ == "F"@
    &&& p.param_type == ParameterType::Float
    &&& !p.required
    &&& p.constraints is Some
    &&& p.constraints->0.min_value is Some
    &&& p.constraints->0.min_value->0.units == crate::value::scale()
    &&& p.constraints->0.max_value is None
    &&& p.constraints->0.enum_values is None
    &&& p.aliases is None
}

/// An optional float target bounded to `[0, max_whole]` degrees.
pub open spec fn is_temp_target(p: ParameterDef, max_whole: int) -> bool {
    &&& p.name@ == "S"@
    &&& p.param_type == ParameterType::Float
    &&& !p.required
    &&& p.constraints is Some
    &&& p.constraints->0.min_value is Some
    &&& p.constraints->0.min_value->0.units == 0
    &&& p.constraints->0.max_value is Some
    &&& p.constraints->0.max_value->0.units == max_whole * crate::value::scale()
    &&& p.constraints->0.enum_values is None
    &&& p.aliases is None
}

/// A command with no declared parameters or constraints.
pub open spec fn is_plain_def(c: CommandDef, name: Seq<char>) -> bool {
    &&& c.name@ == name
    &&& c.parameters is None
    &&& c.constraints is None
}

/// A motion command of the embedded flavor: optional float axes and a
/// feedrate, requiring at least one coordinate.
pub open spec fn is_embedded_move_def(c: CommandDef, name: Seq<char>, with_extruder: bool) -> bool {
    let ps = c.parameters->0@;
    let cs = c.constraints->0@;
    &&& c.name@ == name
    &&& c.parameters is Some
    &&& ps.len() == if with_extruder {
        5int
    } else {
        4int
    }
    &&& is_float_axis(ps[0], "X"@)
    &&& is_float_axis(ps[1], "Y"@)
    &&& is_float_axis(ps[2], "Z"@)
    &&& (with_extruder ==> is_float_axis(ps[3], "E"@))
    &&& is_feedrate(ps[ps.len() - 1])
    &&& c.constraints is Some
    &&& cs.len() == 1
    &&& cs[0].constraint_type == ConstraintType::RequireAnyOf
    &&& cs[0].message is None
    &&& cs[0].parameters@.map_values(|s: String| s@) == if with_extruder {
        seq!["X"@, "Y"@, "Z"@, "E"@]
    } else {
        seq!["X"@, "Y"@, "Z"@]
    }
}

/// The homing command of the embedded flavor: three optional flag axes.
pub open spec fn is_embedded_home_def(c: CommandDef) -> bool {
    let ps = c.parameters->0@;
    &&& c.name@ == "G28"@
    &&& c.parameters is Some
    &&& ps.len() == 3
    &&& is_flag_axis(ps[0], "X"@)
    &&& is_flag_axis(ps[1], "Y"@)
    &&& is_flag_axis(ps[2], "Z"@)
    &&& c.constraints is None
}

/// A temperature-setting command of the embedded flavor: one optional
/// bounded float target.
pub open spec fn is_embedded_temp_def(c: CommandDef, name: Seq<char>, max_whole: int) -> bool {
    let ps = c.parameters->0@;
    &&& c.name@ == name
    &&& c.parameters is Some
    &&& ps.len() == 1
    &&& is_temp_target(ps[0], max_whole)
    &&& c.constraints is None
}

/// The embedded default flavor's command set: G0 and G1 motion commands
/// with a RequireAnyOf coordinate constraint, G28 homing, G90/G91
/// positioning modes, and bounded M104/M140 temperature targets — each
/// found by its (upper-cased) name.
pub open spec fn spec_embedded_prusa_set(cs: Seq<CommandDef>) -> bool {
    &&& cs.len() == 7
    &&& is_embedded_move_def(cs[0], "G0"@, false)
    &&& is_embedded_move_def(cs[1], "G1"@, true)
    &&& is_embedded_home_def(cs[2])
    &&& is_plain_def(cs[3], "G90"@)
    &&& is_plain_def(cs[4], "G91"@)
    &&& is_embedded_temp_def(cs[5], "M104"@, 300)
    &&& is_embedded_temp_def(cs[6], "M140"@, 120)
    &&& spec_cs_find(cs, spec_upper("G0"@)) == Some(0int)
    &&& spec_cs_find(cs, spec_upper("G1"@)) == Some(1int)
    &&& spec_cs_find(cs, spec_upper("G28"@)) == Some(2int)
    &&& spec_cs_find(cs, spec_upper("G90"@)) == Some(3int)
    &&& spec_cs_find(cs, spec_upper("G91"@)) == Some(4int)
    &&& spec_cs_find(cs, spec_upper("M104"@)) == Some(5int)
    &&& spec_cs_find(cs, spec_upper("M140"@)) == Some(6int)
}

/// The minimal fallback flavor's command set: the two core motion
/// commands, each found by its (upper-cased) name.
pub open spec fn spec_minimal_prusa_set(cs: Seq<CommandDef>) -> bool {
    &&& cs.len() == 2
    &&& is_plain_def(cs[0], "G0"@)
    &&& is_plain_def(cs[1], "G1"@)
    &&& spec_cs_find(cs, spec_upper("G0"@)) == Some(0int)
    &&& spec_cs_find(cs, spec_upper("G1"@)) == Some(1int)
}

/// The embedded command names fold to themselves under upper-casing and
/// are pairwise distinct.
proof fn lemma_embedded_names()
    ensures
        spec_upper("G0"@) == "G0"@,
        spec_upper("G1"@) == "G1"@,
        spec_upper("G28"@) == "G28"@,
        spec_upper("G90"@) == "G90"@,
        spec_upper("G91"@) == "G91"@,
        spec_upper("M104"@) == "M104"@,
        spec_upper("M140"@) == "M140"@,
        "G0"@ != "G1"@,
        "G0"@ != "G28"@,
        "G0"@ != "G90"@,
        "G0"@ != "G91"@,
        "G0"@ != "M104"@,
        "G0"@ != "M140"@,
        "G1"@ != "G28"@,
        "G1"@ != "G90"@,
        "G1"@ != "G91"@,
        "G1"@ != "M104"@,
        "G1"@ != "M140"@,
        "G28"@ != "G90"@,
        "G28"@ != "G91"@,
        "G28"@ != "M104"@,
        "G28"@ != "M140"@,
        "G90"@ != "G91"@,
        "G90"@ != "M104"@,
        "G90"@ != "M140"@,
        "G91"@ != "M104"@,
        "G91"@ != "M140"@,
        "M104"@ != "M140"@,
{
    reveal_strlit("G0");
    reveal_strlit("G1");
    reveal_strlit("G28");
    reveal_strlit("G90");
    reveal_strlit("G91");
    reveal_strlit("M104");
    reveal_strlit("M140");
    assert(spec_upper("G0"@) =~= "G0"@);
    assert(spec_upper("G1"@) =~= "G1"@);
    assert(spec_upper("G28"@) =~= "G28"@);
    assert(spec_upper("G90"@) =~= "G90"@);
    assert(spec_upper("G91"@) =~= "G91"@);
    assert(spec_upper("M104"@) =~= "M104"@);
    assert(spec_upper("M140"@) =~= "M140"@);
    assert("G0"@[1] != "G1"@[1]);
    assert("G28"@[1] != "G90"@[1]);
    assert("G28"@[1] != "G91"@[1]);
    assert("G90"@[2] != "G91"@[2]);
    assert("M104"@[2] != "M140"@[2]);
}

/// Lookups over the embedded command-set sequence land on each entry.
proof fn lemma_embedded_set_lookups(
    cs: Seq<CommandDef>,
    g0: CommandDef,
    g1: CommandDef,
    g2: CommandDef,
    g3: CommandDef,
    g4: CommandDef,
    g5: CommandDef,
    g6: CommandDef,
)
    requires
        cs =~= seq![g0, g1, g2, g3, g4, g5, g6],
        g0.name@ == "G0"@,
        g1.name@ == "G1"@,
        g2.name@ == "G28"@,
        g3.name@ == "G90"@,
        g4.name@ == "G91"@,
        g5.name@ == "M104"@,
        g6.name@ == "M140"@,
    ensures
        spec_cs_find(cs, spec_upper("G0"@)) == Some(0int),
        spec_cs_find(cs, spec_upper("G1"@)) == Some(1int),
        spec_cs_find(cs, spec_upper("G28"@)) == Some(2int),
        spec_cs_find(cs, spec_upper("G90"@)) == Some(3int),
        spec_cs_find(cs, spec_upper("G91"@)) == Some(4int),
        spec_cs_find(cs, spec_upper("M104"@)) == Some(5int),
        spec_cs_find(cs, spec_upper("M140"@)) == Some(6int),
{
    lemma_embedded_names();
    let names = seq!["G0"@, "G1"@, "G28"@, "G90"@, "G91"@, "M104"@, "M140"@];
    assert forall|d: int| 0 <= d < 7 implies spec_cs_find(cs, spec_upper(names[d])) == Some(
        d,
    ) by {
        assert(spec_upper(cs[d].name@) == names[d]);
        assert forall|i: int| 0 <= i < d implies spec_upper((#[trigger] cs[i]).name@)
            != names[d] by {
            assert(spec_upper(cs[i].name@) == names[i]);
        }
        lemma_cs_find_at(cs, names[d], d);
        assert(spec_upper(names[d]) == names[d]);
    }
    assert(spec_cs_find(cs, spec_upper(names[0])) == Some(0int));
    assert(spec_cs_find(cs, spec_upper(names[1])) == Some(1int));
    assert(spec_cs_find(cs, spec_upper(names[2])) == Some(2int));
    assert(spec_cs_find(cs, spec_upper(names[3])) == Some(3int));
    assert(spec_cs_find(cs, spec_upper(names[4])) == Some(4int));
    assert(spec_cs_find(cs, spec_upper(names[5])) == Some(5int));
    assert(spec_cs_find(cs, spec_upper(names[6])) == Some(6int));
}

/// A command definition with no declared parameters or constraints.
fn plain_command_def(name: &str, short: &str) -> (r: CommandDef)
    ensures
        is_plain_def(r, name@),
{
    CommandDef {
        name: name.to_owned(),
        description_short: Some(short.to_owned()),
        description_long: None,
        parameters: None,
        constraints: None,
    }
}

/// A motion command: optional float axes and a feedrate, requiring at
/// least one coordinate.
fn move_command_def(name: &str, short: &str, with_extruder: bool) -> (r: CommandDef)
    ensures
        is_embedded_move_def(r, name@, with_extruder),
{
    let px = axis_float_def("X", "X-axis destination");
    let py = axis_float_def("Y", "Y-axis destination");
    let pz = axis_float_def("Z", "Z-axis destination");
    let pf = ParameterDef {
        name: "F".to_owned(),
        param_type: ParameterType::Float,
        required: false,
        description: "Feedrate".to_owned(),
        constraints: Some(ParameterConstraints {
            min_value: Some(crate::value::Decimal::from_whole(1)),
            max_value: None,
            enum_values: None,
        }),
        aliases: None,
    };
    let ghost gx = px;
    let ghost gy = py;
    let ghost gz = pz;
    let ghost gf = pf;
    let mut params: Vec<ParameterDef> = Vec::new();
    params.push(px);
    params.push(py);
    params.push(pz);
    let mut wanted: Vec<String> = Vec::new();
    wanted.push("X".to_owned());
    wanted.push("Y".to_owned());
    wanted.push("Z".to_owned());
    if with_extruder {
        let e = axis_float_def("E", "Filament to extrude");
        proof {
            assert(is_float_axis(e, "E"@));
        }
        params.push(e);
        wanted.push("E".to_owned());
    }
    params.push(pf);
    proof {
        if with_extruder {
            assert(params@.len() == 5 && wanted@.len() == 4);
            assert(is_float_axis(params@[3], "E"@));
            assert(wanted@.map_values(|s: String| s@) =~= seq!["X"@, "Y"@, "Z"@, "E"@]);
        } else {
            assert(params@.len() == 4 && wanted@.len() == 3);
            assert(wanted@.map_values(|s: String| s@) =~= seq!["X"@, "Y"@, "Z"@]);
        }
        assert(params@[0] == gx && params@[1] == gy && params@[2] == gz);
        assert(params@[params@.len() - 1] == gf);
    }
    let mut constraints: Vec<ParameterConstraint> = Vec::new();
    constraints.push(ParameterConstraint {
        constraint_type: ConstraintType::RequireAnyOf,
        parameters: wanted,
        message: None,
    });
    CommandDef {
        name: name.to_owned(),
        description_short: Some(short.to_owned()),
        description_long: None,
        parameters: Some(params),
        constraints: Some(constraints),
    }
}

/// An optional float axis parameter.
fn axis_float_def(name: &str, description: &str) -> (r: ParameterDef)
    ensures
        is_float_axis(r, name@),
{
    ParameterDef {
        name: name.to_owned(),
        param_type: ParameterType::Float,
        required: false,
        description: description.to_owned(),
        constraints: None,
        aliases: None,
    }
}

/// An optional flag-style axis parameter.
fn axis_flag_def(name: &str, description: &str) -> (r: ParameterDef)
    ensures
        is_flag_axis(r, name@),
{
    ParameterDef {
        name: name.to_owned(),
        param_type: ParameterType::Bool,
        required: false,
        description: description.to_owned(),
        constraints: None,
        aliases: None,
    }
}

/// A temperature-setting command with an optional bounded float target.
fn temperature_command_def(name: &str, short: &str, max_c: i64) -> (r: CommandDef)
    requires
        0 <= max_c,
    ensures
        is_embedded_temp_def(r, name@, max_c as int),
{
    let ps = ParameterDef {
        name: "S".to_owned(),
        param_type: ParameterType::Float,
        required: false,
        description: "Target temperature".to_owned(),
        constraints: Some(ParameterConstraints {
            min_value: Some(crate::value::Decimal::from_whole(0)),
            max_value: Some(crate::value::Decimal::from_whole(max_c)),
            enum_values: None,
        }),
        aliases: None,
    };
    let ghost gs = ps;
    let mut params: Vec<ParameterDef> = Vec::new();
    params.push(ps);
    proof {
        assert(params@[0] == gs);
    }
    CommandDef {
        name: name.to_owned(),
        description_short: Some(short.to_owned()),
        description_long: None,
        parameters: Some(params),
        constraints: None,
    }
}

} // verus!
