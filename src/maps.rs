//! One record of a process's memory-region catalog (`/proc/<pid>/maps`).

use vstd::prelude::*;
use crate::hexnum::{
    address_range_text, hex_body, hex_value, is_hex_u64, lemma_to_hex_padded, parse_hex_u64, to_hex_padded,
};

verus! {

/// What backs a mapping.
#[derive(Debug, Clone)]
pub enum MapsPath {
    Stack,
    Heap,
    /// vDSO (virtual dynamic shared object).
    VDSO,
    /// vvar page.
    VVar,
    /// Virtual syscall page.
    VSyscall,
    /// Anonymous mapping, as obtained from `mmap(2)`.
    Anonymous,
    /// A file, by its pathname as the catalog shows it.
    File(String),
}

/// `r` is the classification of the optional pathname `p`: the bracketed
/// pseudo-paths by name, no pathname as anonymous, anything else as a file.
pub open spec fn path_is(r: MapsPath, p: Option<Seq<char>>) -> bool {
    match p {
        None => r is Anonymous,
        Some(s) => if s == "[stack]"@ {
            r is Stack
        } else if s == "[heap]"@ {
            r is Heap
        } else if s == "[vdso]"@ {
            r is VDSO
        } else if s == "[vvar]"@ {
            r is VVar
        } else if s == "[vsyscall]"@ {
            r is VSyscall
        } else {
            r matches MapsPath::File(f) && f@ == s
        },
    }
}

/// Character-wise equality of two strings.
pub fn str_eq(a: &str, b: &str) -> (r: bool)
    ensures
        r == (a@ == b@),
{
    let n = a.unicode_len();
    if n != b.unicode_len() {
        return false;
    }
    let mut i: usize = 0;
    while i < n
        invariant
            n == a@.len(),
            n == b@.len(),
            i <= n,
            a@.subrange(0, i as int) == b@.subrange(0, i as int),
        decreases n - i,
    {
        if a.get_char(i) != b.get_char(i) {
            return false;
        }
        assert(a@.subrange(0, i + 1) =~= a@.subrange(0, i as int).push(a@[i as int]));
        assert(b@.subrange(0, i + 1) =~= b@.subrange(0, i as int).push(b@[i as int]));
        i = i + 1;
    }
    assert(a@ =~= a@.subrange(0, n as int));
    assert(b@ =~= b@.subrange(0, n as int));
    true
}

impl<'a> From<Option<&'a str>> for MapsPath {
    fn from(path: Option<&'a str>) -> (r: MapsPath)
        ensures
            path_is(r, match path {
                Some(s) => Some(s@),
                None => None,
            }),
    {
        match path {
            None => MapsPath::Anonymous,
            Some(p) => if str_eq(p, "[stack]") {
                MapsPath::Stack
            } else if str_eq(p, "[heap]") {
                MapsPath::Heap
            } else if str_eq(p, "[vdso]") {
                MapsPath::VDSO
            } else if str_eq(p, "[vvar]") {
                MapsPath::VVar
            } else if str_eq(p, "[vsyscall]") {
                MapsPath::VSyscall
            } else {
                MapsPath::File(p.to_owned())
            },
        }
    }
}

/// `from` states its result through `path_is`; a `File` result holds a
/// `String`, which no spec function can build, so no `from_spec` is claimed.
impl<'a> vstd::std_specs::convert::FromSpecImpl<Option<&'a str>> for MapsPath {
    open spec fn obeys_from_spec() -> bool {
        false
    }

    open spec fn from_spec(v: Option<&'a str>) -> MapsPath {
        MapsPath::Anonymous
    }
}

/// The whitespace that splits catalog fields (`u8::is_ascii_whitespace`).
pub open spec fn is_ws(c: char) -> bool {
    c == ' ' || c == '\t' || c == '\n' || c == '\x0C' || c == '\r'
}

fn is_ascii_ws(c: char) -> (r: bool)
    ensures
        r == is_ws(c),
{
    c == ' ' || c == '\t' || c == '\n' || c == '\x0C' || c == '\r'
}

/// Start and end of each maximal run of non-whitespace characters among the
/// first `i` characters of `s`, in order.
pub open spec fn spans_upto(s: Seq<char>, i: int) -> Seq<(int, int)>
    decreases i,
{
    if i <= 0 {
        seq![]
    } else {
        let prev = spans_upto(s, i - 1);
        if is_ws(s[i - 1]) {
            prev
        } else if i >= 2 && !is_ws(s[i - 2]) {
            prev.update(prev.len() - 1, (prev.last().0, i))
        } else {
            prev.push((i - 1, i))
        }
    }
}

/// The whitespace-separated fields of a line, as index spans.
pub open spec fn spans(s: Seq<char>) -> Seq<(int, int)> {
    spans_upto(s, s.len() as int)
}

/// The `k`-th whitespace-separated field of `s`.
pub open spec fn field(s: Seq<char>, k: int) -> Seq<char> {
    s.subrange(spans(s)[k].0, spans(s)[k].1)
}

/// The text from the start of field `k` to the end of the last field.
pub open spec fn rest_from(s: Seq<char>, k: int) -> Seq<char> {
    s.subrange(spans(s)[k].0, spans(s).last().1)
}

pub open spec fn span_view(v: Seq<(usize, usize)>) -> Seq<(int, int)> {
    v.map_values(|p: (usize, usize)| (p.0 as int, p.1 as int))
}

pub open spec fn spans_ordered(v: Seq<(usize, usize)>, n: int) -> bool {
    &&& forall|k: int| 0 <= k < v.len() ==> #[trigger] v[k].0 < v[k].1 <= n
    &&& forall|k1: int, k2: int| 0 <= k1 < k2 < v.len() ==> #[trigger] v[k1].1 <= #[trigger] v[k2].0
}

/// Splits a line at ASCII whitespace, as `str::split_ascii_whitespace` does.
fn split_fields(s: &str) -> (r: Vec<(usize, usize)>)
    ensures
        span_view(r@) == spans(s@),
        spans_ordered(r@, s@.len() as int),
{
    let n = s.unicode_len();
    let mut out: Vec<(usize, usize)> = Vec::new();
    let mut i: usize = 0;
    let mut prev_ws = true;
    while i < n
        invariant
            n == s@.len(),
            i <= n,
            span_view(out@) == spans_upto(s@, i as int),
            spans_ordered(out@, i as int),
            prev_ws == (i == 0 || is_ws(s@[i - 1])),
            !prev_ws ==> out@.len() > 0 && out@.last().1 == i,
        decreases n - i,
    {
        let c = s.get_char(i);
        let ghost prev = out@;
        if is_ascii_ws(c) {
            prev_ws = true;
        } else if !prev_ws {
            let last = out.len() - 1;
            let a = out[last].0;
            out.set(last, (a, i + 1));
            assert(span_view(out@) =~= span_view(prev).update(last as int, (a as int, i + 1)));
            prev_ws = false;
        } else {
            out.push((i, i + 1));
            assert(span_view(out@) =~= span_view(prev).push((i as int, i + 1)));
            prev_ws = false;
        }
        i = i + 1;
        assert(spans_ordered(out@, i as int)) by {
            assert forall|k1: int, k2: int| 0 <= k1 < k2 < out@.len() implies #[trigger] out@[k1].1 <= #[trigger] out@[k2].0 by {
                if k2 < prev.len() {
                    assert(out@[k2].0 == prev[k2].0);
                    assert(out@[k1] == prev[k1]);
                }
            }
        }
    }
    out
}

/// One record (one line) of the memory-region catalog.
#[derive(Debug, Clone)]
pub struct MapsRecord {
    /// Lower bound of the address range that the mapping occupies.
    pub address_lower: u64,
    /// Upper bound of the address range that the mapping occupies.
    pub address_upper: u64,
    /// Flags `r`/`-` read, `w`/`-` write, `x`/`-` execute, `s`/`p` shared or private.
    pub perms: String,
    /// Offset into the file.
    pub offset: u64,
    /// Device, as `major:minor`.
    pub dev: String,
    /// Inode on that device; 0 when no file backs the region.
    pub inode: u64,
    /// Pathname or pseudo-path of the mapping.
    pub path: MapsPath,
}

/// Why a catalog line could not be read as a record.
#[derive(Debug, Clone)]
pub enum MapsError {
    /// A required field is absent; holds the field's name.
    MissingField(String),
    /// The address range has no `-` separator.
    AddressSpaceParseError,
    /// A hexadecimal field does not parse; holds the field's name.
    ParsingError(String),
}

/// Error kinds and field names, as plain values.
pub enum MapsErrorView {
    MissingField(Seq<char>),
    AddressSpaceParseError,
    ParsingError(Seq<char>),
}

impl MapsError {
    pub open spec fn view(&self) -> MapsErrorView {
        match self {
            MapsError::MissingField(n) => MapsErrorView::MissingField(n@),
            MapsError::AddressSpaceParseError => MapsErrorView::AddressSpaceParseError,
            MapsError::ParsingError(n) => MapsErrorView::ParsingError(n@),
        }
    }
}

/// Value of a hexadecimal field.
pub open spec fn hex_num(t: Seq<char>) -> nat {
    hex_value(hex_body(t))
}

pub open spec fn has_dash(f: Seq<char>) -> bool {
    exists|i: int| 0 <= i < f.len() && f[i] == '-'
}

/// `d` is the index of the first `-` in `f`.
pub open spec fn is_first_dash(f: Seq<char>, d: int) -> bool {
    0 <= d < f.len() && f[d] == '-' && forall|i: int| 0 <= i < d ==> f[i] != '-'
}

pub open spec fn first_dash(f: Seq<char>) -> int {
    choose|d: int| is_first_dash(f, d)
}

/// The part of an address range before its first `-`.
pub open spec fn range_lower(f: Seq<char>) -> Seq<char> {
    f.subrange(0, first_dash(f))
}

/// The part of an address range after its first `-`.
pub open spec fn range_upper(f: Seq<char>) -> Seq<char> {
    f.subrange(first_dash(f) + 1, f.len() as int)
}

/// The error that reading line `s` as a record gives, if any: a missing
/// address field, then a range without `-`, then the first other missing
/// field, then the first hexadecimal field that does not parse.
pub open spec fn line_error(s: Seq<char>) -> Option<MapsErrorView> {
    let n = spans(s).len();
    if n < 1 {
        Some(MapsErrorView::MissingField("address_space"@))
    } else if !has_dash(field(s, 0)) {
        Some(MapsErrorView::AddressSpaceParseError)
    } else if n < 2 {
        Some(MapsErrorView::MissingField("perms"@))
    } else if n < 3 {
        Some(MapsErrorView::MissingField("offset"@))
    } else if n < 4 {
        Some(MapsErrorView::MissingField("dev"@))
    } else if n < 5 {
        Some(MapsErrorView::MissingField("inode"@))
    } else if !is_hex_u64(range_lower(field(s, 0))) {
        Some(MapsErrorView::ParsingError("address_lower"@))
    } else if !is_hex_u64(range_upper(field(s, 0))) {
        Some(MapsErrorView::ParsingError("address_upper"@))
    } else if !is_hex_u64(field(s, 2)) {
        Some(MapsErrorView::ParsingError("offset"@))
    } else if !is_hex_u64(field(s, 4)) {
        Some(MapsErrorView::ParsingError("inode"@))
    } else {
        None
    }
}

/// The pathname of line `s`: everything from the sixth field to the end of
/// the last one, or nothing when there are five fields.
pub open spec fn line_path(s: Seq<char>) -> Option<Seq<char>> {
    if spans(s).len() > 5 {
        Some(rest_from(s, 5))
    } else {
        None
    }
}

/// `r` is the record that line `s` describes.
pub open spec fn record_of_line(r: MapsRecord, s: Seq<char>) -> bool {
    &&& r.address_lower as nat == hex_num(range_lower(field(s, 0)))
    &&& r.address_upper as nat == hex_num(range_upper(field(s, 0)))
    &&& r.perms@ == field(s, 1)
    &&& r.offset as nat == hex_num(field(s, 2))
    &&& r.dev@ == field(s, 3)
    &&& r.inode as nat == hex_num(field(s, 4))
    &&& path_is(r.path, line_path(s))
}

/// `perms` grants both read and write.
pub open spec fn is_read_write(perms: Seq<char>) -> bool {
    perms.len() >= 2 && perms[0] == 'r' && perms[1] == 'w'
}

/// Splits an address range at its first `-`.
pub fn split_address_range(f: &str) -> (r: Option<(&str, &str)>)
    ensures
        r.is_some() == has_dash(f@),
        r matches Some((a, b)) ==> a@ == range_lower(f@) && b@ == range_upper(f@),
{
    let n = f.unicode_len();
    let mut i: usize = 0;
    while i < n
        invariant
            n == f@.len(),
            i <= n,
            forall|j: int| 0 <= j < i ==> f@[j] != '-',
        decreases n - i,
    {
        if f.get_char(i) == '-' {
            assert(is_first_dash(f@, i as int));
            assert(first_dash(f@) == i) by {
                let d = first_dash(f@);
                assert(is_first_dash(f@, d));
            }
            return Some((f.substring_char(0, i), f.substring_char(i + 1, n)));
        }
        i = i + 1;
    }
    None
}

impl MapsRecord {
    /// Reads one catalog line: an address range `lower-upper`, permissions,
    /// offset, device and inode, then an optional pathname; the numbers in
    /// hexadecimal.
    pub fn try_from_line(line: &str) -> (r: Result<MapsRecord, MapsError>)
        ensures
            match r {
                Ok(rec) => line_error(line@) is None && record_of_line(rec, line@),
                Err(e) => line_error(line@) == Some(e@),
            },
    {
        let sp = split_fields(line);
        let ghost s = line@;
        if sp.len() < 1 {
            return Err(MapsError::MissingField(String::from_str("address_space")));
        }
        let addr = line.substring_char(sp[0].0, sp[0].1);
        let (lo, up) = match split_address_range(addr) {
            Some(pair) => pair,
            None => {
                return Err(MapsError::AddressSpaceParseError);
            },
        };
        if sp.len() < 2 {
            return Err(MapsError::MissingField(String::from_str("perms")));
        }
        if sp.len() < 3 {
            return Err(MapsError::MissingField(String::from_str("offset")));
        }
        if sp.len() < 4 {
            return Err(MapsError::MissingField(String::from_str("dev")));
        }
        if sp.len() < 5 {
            return Err(MapsError::MissingField(String::from_str("inode")));
        }
        let perms = line.substring_char(sp[1].0, sp[1].1);
        let offset = line.substring_char(sp[2].0, sp[2].1);
        let dev = line.substring_char(sp[3].0, sp[3].1);
        let inode = line.substring_char(sp[4].0, sp[4].1);
        let address_lower = match parse_hex_u64(lo) {
            Some(v) => v,
            None => {
                return Err(MapsError::ParsingError(String::from_str("address_lower")));
            },
        };
        let address_upper = match parse_hex_u64(up) {
            Some(v) => v,
            None => {
                return Err(MapsError::ParsingError(String::from_str("address_upper")));
            },
        };
        let offset = match parse_hex_u64(offset) {
            Some(v) => v,
            None => {
                return Err(MapsError::ParsingError(String::from_str("offset")));
            },
        };
        let inode = match parse_hex_u64(inode) {
            Some(v) => v,
            None => {
                return Err(MapsError::ParsingError(String::from_str("inode")));
            },
        };
        let path_name = if sp.len() > 5 {
            let last = sp.len() - 1;
            if last > 5 {
                assert(sp@[5].1 <= sp@[last as int].0);
            }
            Some(line.substring_char(sp[5].0, sp[last].1))
        } else {
            None
        };
        Ok(MapsRecord {
            address_lower,
            address_upper,
            perms: perms.to_owned(),
            offset,
            dev: dev.to_owned(),
            inode,
            path: MapsPath::from(path_name),
        })
    }

    /// Whether the region is a scan candidate: no file backs it and it is
    /// both readable and writable.
    pub fn is_admitted(&self) -> (r: bool)
        ensures
            r == (self.inode == 0 && is_read_write(self.perms@)),
    {
        if self.inode != 0 {
            return false;
        }
        let p = self.perms.as_str();
        p.unicode_len() >= 2 && p.get_char(0) == 'r' && p.get_char(1) == 'w'
    }
}

/// Reads an address range `lower-upper`, both bounds in hexadecimal.
pub fn parse_address_range(f: &str) -> (r: Result<(u64, u64), MapsError>)
    ensures
        match r {
            Ok((lo, up)) => has_dash(f@) && is_hex_u64(range_lower(f@)) && is_hex_u64(range_upper(f@))
                && lo as nat == hex_num(range_lower(f@)) && up as nat == hex_num(range_upper(f@)),
            Err(e) => e@ == if !has_dash(f@) {
                MapsErrorView::AddressSpaceParseError
            } else if !is_hex_u64(range_lower(f@)) {
                MapsErrorView::ParsingError("address_lower"@)
            } else {
                MapsErrorView::ParsingError("address_upper"@)
            } && !(has_dash(f@) && is_hex_u64(range_lower(f@)) && is_hex_u64(range_upper(f@))),
        },
{
    let (lo, up) = match split_address_range(f) {
        Some(pair) => pair,
        None => {
            return Err(MapsError::AddressSpaceParseError);
        },
    };
    let lower = match parse_hex_u64(lo) {
        Some(v) => v,
        None => {
            return Err(MapsError::ParsingError(String::from_str("address_lower")));
        },
    };
    let upper = match parse_hex_u64(up) {
        Some(v) => v,
        None => {
            return Err(MapsError::ParsingError(String::from_str("address_upper")));
        },
    };
    Ok((lower, upper))
}

/// Writing an address range in catalog form and reading it back gives the
/// same bounds, and writing those bounds again gives the same text.
pub proof fn lemma_address_range_round_trip(lower: u64, upper: u64)
    ensures
        has_dash(address_range_text(lower as nat, upper as nat)),
        is_hex_u64(range_lower(address_range_text(lower as nat, upper as nat))),
        is_hex_u64(range_upper(address_range_text(lower as nat, upper as nat))),
        hex_num(range_lower(address_range_text(lower as nat, upper as nat))) == lower,
        hex_num(range_upper(address_range_text(lower as nat, upper as nat))) == upper,
        address_range_text(
            hex_num(range_lower(address_range_text(lower as nat, upper as nat))),
            hex_num(range_upper(address_range_text(lower as nat, upper as nat))),
        ) == address_range_text(lower as nat, upper as nat),
{
    let t = address_range_text(lower as nat, upper as nat);
    let lo = to_hex_padded(lower as nat, 8);
    let up = to_hex_padded(upper as nat, 8);
    lemma_to_hex_padded(lower as nat, 8);
    lemma_to_hex_padded(upper as nat, 8);
    let d = lo.len() as int;
    assert(t[d] == '-');
    assert(is_first_dash(t, d)) by {
        assert forall|i: int| 0 <= i < d implies t[i] != '-' by {
            assert(t[i] == lo[i]);
        }
    }
    assert(first_dash(t) == d) by {
        let c = first_dash(t);
        assert(is_first_dash(t, c));
        if c < d {
            assert(t[c] == lo[c]);
        }
    }
    assert(range_lower(t) =~= lo);
    assert(range_upper(t) =~= up);
    assert(hex_body(lo) == lo);
    assert(hex_body(up) == up);
}

} // verus!
