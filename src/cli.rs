use vstd::prelude::*;
use vstd::string::StringSliceAdditionalSpecFns;

use crate::tile_copier::{CopyDuplicateMode, TileCopierOptions};

verus! {

/// Why a command line was rejected.
#[derive(Clone, Copy, Debug, PartialEq, Eq, Structural)]
pub enum ErrorKind {
    /// A required positional argument is absent.
    MissingRequiredArgument,
    /// No subcommand was given.
    MissingSubcommand,
    /// The subcommand is not one of the known ones.
    InvalidSubcommand,
    /// An option or positional argument that the subcommand does not take.
    UnknownArgument,
    /// An option lacks its value, or the value is not one of the allowed words.
    InvalidValue,
    /// A value that should be a number or a list of numbers is not.
    ValueValidation,
    /// Options that exclude each other were both given.
    ArgumentConflict,
}

/// A rejected command line.
#[derive(Clone, Copy, Debug, PartialEq, Eq, Structural)]
pub struct ArgsError {
    pub kind: ErrorKind,
}

impl ArgsError {
    pub fn kind(&self) -> (r: ErrorKind)
        ensures
            r == self.kind,
    {
        self.kind
    }
}

/// The subcommands.
#[derive(Clone, Debug, PartialEq, Eq)]
pub enum Commands {
    /// Reads one metadata value.
    MetaGetValue { file: String, key: String },
    /// Sets one metadata value, or deletes it when no value is given.
    MetaSetValue { file: String, key: String, value: Option<String> },
    /// Copies tiles from one file to another.
    Copy(TileCopierOptions),
    /// Applies a diff file to a tile file.
    ApplyDiff { src_file: String, diff_file: String },
    /// Checks stored tile hashes against the tile content.
    Validate { file: String },
}

/// A parsed command line.
#[derive(Clone, Debug, PartialEq, Eq)]
pub struct Args {
    pub verbose: bool,
    pub command: Commands,
}

fn err<T>(kind: ErrorKind) -> (r: Result<T, ArgsError>)
    ensures
        r matches Err(e) && e.kind == kind,
{
    Err(ArgsError { kind })
}

/// Whether `s` is exactly `lit`.
fn token_is(s: &str, lit: &str) -> (r: bool)
    ensures
        r == (s@ == lit@),
{
    let a = s.to_owned();
    let b = lit.to_owned();
    a == b
}

/// Whether the token reads as an option: it starts with a dash.
pub open spec fn is_flag(b: Seq<u8>) -> bool {
    b.len() > 0 && b[0] == 45u8
}

fn looks_like_flag(s: &str) -> (r: bool)
    ensures
        r == is_flag(s.spec_bytes()),
{
    let b = s.as_bytes();
    b.len() > 0 && b[0] == 45u8
}

pub open spec fn is_digit(c: u8) -> bool {
    48 <= c <= 57
}

/// The decimal value of `b`, saturated at 256.
pub open spec fn capped_value(b: Seq<u8>) -> nat
    decreases b.len(),
{
    if b.len() == 0 {
        0
    } else {
        let v = capped_value(b.drop_last()) * 10 + (b.last() - 48);
        if v > 256 {
            256
        } else {
            v as nat
        }
    }
}

/// `b` read as a decimal number that fits a byte.
pub open spec fn parse_u8_spec(b: Seq<u8>) -> Option<u8> {
    if b.len() > 0 && (forall|i: int| 0 <= i < b.len() ==> is_digit(#[trigger] b[i]))
        && capped_value(b) <= 255 {
        Some(capped_value(b) as u8)
    } else {
        None
    }
}

/// Reads `b[lo..hi]` as a decimal number that fits a byte.
fn parse_u8_range(b: &[u8], lo: usize, hi: usize) -> (r: Option<u8>)
    requires
        lo <= hi <= b@.len(),
    ensures
        r == parse_u8_spec(b@.subrange(lo as int, hi as int)),
{
    let ghost s = b@.subrange(lo as int, hi as int);
    if lo == hi {
        return None;
    }
    let mut v: u32 = 0;
    let mut i: usize = lo;
    while i < hi
        invariant
            lo <= i <= hi <= b@.len(),
            s == b@.subrange(lo as int, hi as int),
            forall|k: int| lo <= k < i ==> is_digit(#[trigger] b@[k]),
            v == capped_value(b@.subrange(lo as int, i as int)),
        decreases hi - i,
    {
        proof {
            assert(b@.subrange(lo as int, i + 1).drop_last() =~= b@.subrange(lo as int, i as int));
        }
        let c = b[i];
        if c < 48u8 || c > 57u8 {
            proof {
                assert(!is_digit(s[i - lo]));
            }
            return None;
        }
        let next: u32 = v * 10 + (c - 48u8) as u32;
        v = if next > 256 { 256 } else { next };
        i += 1;
    }
    proof {
        assert(b@.subrange(lo as int, i as int) =~= s);
        assert forall|k: int| 0 <= k < s.len() implies is_digit(#[trigger] s[k]) by {
            assert(s[k] == b@[lo + k]);
        }
    }
    if v > 255 {
        None
    } else {
        Some(v as u8)
    }
}

/// Reads a token as a decimal number that fits a byte.
pub fn parse_u8(s: &str) -> (r: Option<u8>)
    ensures
        r == parse_u8_spec(s.spec_bytes()),
{
    let b = s.as_bytes();
    let r = parse_u8_range(b, 0, b.len());
    proof {
        assert(b@.subrange(0, b@.len() as int) =~= b@);
    }
    r
}

/// The comma-separated pieces of `b`; there is always at least one.
pub open spec fn segments(b: Seq<u8>) -> Seq<Seq<u8>>
    decreases b.len(),
{
    if b.len() == 0 {
        seq![Seq::empty()]
    } else if b.last() == 44u8 {
        segments(b.drop_last()).push(Seq::empty())
    } else {
        let s = segments(b.drop_last());
        s.update(s.len() - 1, s.last().push(b.last()))
    }
}

proof fn lemma_segments_nonempty(b: Seq<u8>)
    ensures
        segments(b).len() >= 1,
    decreases b.len(),
{
    if b.len() > 0 {
        lemma_segments_nonempty(b.drop_last());
    }
}

/// A comma-separated list of byte-sized numbers, if every piece is one.
pub open spec fn parse_zoom_list_spec(b: Seq<u8>) -> Option<Seq<u8>> {
    let segs = segments(b);
    if forall|i: int| 0 <= i < segs.len() ==> (#[trigger] parse_u8_spec(segs[i])) is Some {
        Some(segs.map_values(|seg: Seq<u8>| parse_u8_spec(seg).unwrap()))
    } else {
        None
    }
}

/// Reads a comma-separated list of zoom levels.
pub fn parse_zoom_list(s: &str) -> (r: Option<Vec<u8>>)
    ensures
        r matches Some(v) ==> parse_zoom_list_spec(s.spec_bytes()) == Some(v@),
        r is None ==> parse_zoom_list_spec(s.spec_bytes()) is None,
{
    let b = s.as_bytes();
    let mut out: Vec<u8> = Vec::new();
    let mut ok = true;
    let mut lo: usize = 0;
    let mut i: usize = 0;
    proof {
        assert(b@.subrange(0, 0) =~= Seq::<u8>::empty());
    }
    while i < b.len()
        invariant
            lo <= i <= b@.len(),
            segments(b@.subrange(0, i as int)).len() >= 1,
            segments(b@.subrange(0, i as int)).last() == b@.subrange(lo as int, i as int),
            ok ==> segments(b@.subrange(0, i as int)).len() == out@.len() + 1,
            ok ==> forall|k: int| 0 <= k < out@.len() ==> parse_u8_spec(#[trigger] segments(b@.subrange(0, i as int))[k]) == Some(out@[k]),
            !ok ==> exists|k: int| 0 <= k < segments(b@.subrange(0, i as int)).len() - 1
                && (#[trigger] parse_u8_spec(segments(b@.subrange(0, i as int))[k])) is None,
        decreases b@.len() - i,
    {
        let ghost prev = segments(b@.subrange(0, i as int));
        proof {
            assert(b@.subrange(0, i + 1).drop_last() =~= b@.subrange(0, i as int));
        }
        if b[i] == 44u8 {
            let ghost old_lo = lo;
            let parsed = parse_u8_range(b, lo, i);
            lo = i + 1;
            let ghost nxt = segments(b@.subrange(0, i + 1));
            proof {
                assert(b@.subrange(lo as int, i + 1) =~= Seq::<u8>::empty());
                assert(nxt == prev.push(Seq::empty()));
                assert forall|k: int| 0 <= k < prev.len() implies #[trigger] nxt[k] == prev[k] by {}
            }
            match parsed {
                Some(z) => {
                    if ok {
                        out.push(z);
                        proof {
                            assert forall|k: int| 0 <= k < out@.len() implies parse_u8_spec(#[trigger] nxt[k]) == Some(out@[k]) by {
                                if k < out@.len() - 1 {
                                    assert(nxt[k] == prev[k]);
                                }
                            }
                        }
                    } else {
                        proof {
                            let k = choose|k: int| 0 <= k < prev.len() - 1 && (#[trigger] parse_u8_spec(prev[k])) is None;
                            assert(nxt[k] == prev[k]);
                        }
                    }
                },
                None => {
                    proof {
                        if ok {
                            assert(parse_u8_spec(nxt[prev.len() - 1]) is None);
                        } else {
                            let k = choose|k: int| 0 <= k < prev.len() - 1 && (#[trigger] parse_u8_spec(prev[k])) is None;
                            assert(nxt[k] == prev[k]);
                        }
                    }
                    ok = false;
                },
            }
        } else {
            proof {
                let nxt = segments(b@.subrange(0, i + 1));
                assert(b@.subrange(lo as int, i + 1) =~= b@.subrange(lo as int, i as int).push(b@[i as int]));
                assert(nxt == prev.update(prev.len() - 1, prev.last().push(b@[i as int])));
                assert forall|k: int| 0 <= k < prev.len() - 1 implies #[trigger] nxt[k] == prev[k] by {}
                if ok {
                    assert forall|k: int| 0 <= k < out@.len() implies parse_u8_spec(#[trigger] nxt[k]) == Some(out@[k]) by {
                        assert(nxt[k] == prev[k]);
                    }
                } else {
                    let k = choose|k: int| 0 <= k < prev.len() - 1 && (#[trigger] parse_u8_spec(prev[k])) is None;
                    assert(nxt[k] == prev[k]);
                }
            }
        }
        i += 1;
    }
    proof {
        assert(b@.subrange(0, b@.len() as int) =~= b@);
    }
    let last = parse_u8_range(b, lo, b.len());
    let ghost segs = segments(b@);
    if !ok {
        return None;
    }
    match last {
        Some(z) => {
            out.push(z);
            proof {
                assert forall|k: int| 0 <= k < segs.len() implies (#[trigger] parse_u8_spec(segs[k])) is Some by {
                    if k < out@.len() - 1 {
                        assert(parse_u8_spec(segs[k]) == Some(out@[k]));
                    }
                }
                assert(out@ =~= segs.map_values(|seg: Seq<u8>| parse_u8_spec(seg).unwrap()));
            }
            Some(out)
        },
        None => {
            proof {
                assert(parse_u8_spec(segs[segs.len() - 1]) is None);
            }
            None
        },
    }
}

/// Whether the token is the verbose flag.
pub open spec fn is_verbose_flag(t: Seq<char>) -> bool {
    t == "-v"@ || t == "--verbose"@
}

/// The value following the option at `i`: present, and not itself an option.
fn option_value<'a>(args: &[&'a str], i: usize) -> (r: Result<&'a str, ArgsError>)
    requires
        i < args@.len(),
    ensures
        r is Ok <==> i + 1 < args@.len() && !is_flag(args@[i + 1].spec_bytes()),
        r matches Ok(v) ==> v == args@[i + 1],
        r matches Err(e) ==> e.kind == ErrorKind::InvalidValue,
{
    if i < args.len() - 1 && !looks_like_flag(args[i + 1]) {
        Ok(args[i + 1])
    } else {
        err(ErrorKind::InvalidValue)
    }
}

/// The duplicate policy named by a token.
pub open spec fn duplicate_mode_spec(t: Seq<char>) -> Option<CopyDuplicateMode> {
    if t == "override"@ {
        Some(CopyDuplicateMode::Override)
    } else if t == "ignore"@ {
        Some(CopyDuplicateMode::Ignore)
    } else if t == "abort"@ {
        Some(CopyDuplicateMode::Abort)
    } else {
        None
    }
}

pub fn parse_duplicate_mode(t: &str) -> (r: Option<CopyDuplicateMode>)
    ensures
        r == duplicate_mode_spec(t@),
{
    if token_is(t, "override") {
        Some(CopyDuplicateMode::Override)
    } else if token_is(t, "ignore") {
        Some(CopyDuplicateMode::Ignore)
    } else if token_is(t, "abort") {
        Some(CopyDuplicateMode::Abort)
    } else {
        None
    }
}

/// The tokens from `start` on, as the positional arguments of a subcommand
/// that takes at least `min` and at most `max` of them.
fn positionals(args: &[&str], start: usize, min: usize, max: usize) -> (r: Result<Vec<String>, ArgsError>)
    requires
        start <= args@.len(),
        min <= max,
    ensures
        r is Ok <==> (forall|k: int| start <= k < args@.len() ==> !is_flag(#[trigger] args@[k].spec_bytes()))
            && min <= args@.len() - start <= max,
        r matches Ok(v) ==> v@.len() == args@.len() - start && forall|k: int|
            0 <= k < v@.len() ==> #[trigger] v@[k]@ == args@[start + k]@,
{
    let mut out: Vec<String> = Vec::new();
    let mut i: usize = start;
    while i < args.len()
        invariant
            start <= i <= args@.len(),
            out@.len() == i - start,
            forall|k: int| start <= k < i ==> !is_flag(#[trigger] args@[k].spec_bytes()),
            forall|k: int| 0 <= k < out@.len() ==> #[trigger] out@[k]@ == args@[start + k]@,
        decreases args@.len() - i,
    {
        if looks_like_flag(args[i]) {
            return err(ErrorKind::UnknownArgument);
        }
        out.push(args[i].to_owned());
        i += 1;
    }
    if out.len() < min {
        return err(ErrorKind::MissingRequiredArgument);
    }
    if out.len() > max {
        return err(ErrorKind::UnknownArgument);
    }
    Ok(out)
}

/// What the arguments of `copy` read so far have set.
pub struct CopyState {
    pub files: Seq<Seq<char>>,
    pub min_zoom: Option<u8>,
    pub max_zoom: Option<u8>,
    pub zoom_levels: Option<Seq<u8>>,
    pub diff_with_file: Option<Seq<char>>,
    pub on_duplicate: CopyDuplicateMode,
    pub verbose: bool,
}

/// Nothing read yet: the duplicate policy defaults to `Override`.
pub open spec fn initial_copy_state() -> CopyState {
    CopyState {
        files: Seq::empty(),
        min_zoom: None,
        max_zoom: None,
        zoom_levels: None,
        diff_with_file: None,
        on_duplicate: CopyDuplicateMode::Override,
        verbose: false,
    }
}

/// Reads the `copy` arguments from index `i` on, left to right, starting from
/// `st`. An option takes the next token as its value, which must be present and
/// not look like an option; a later occurrence of an option overrides an
/// earlier one. At most two file names are taken.
pub open spec fn copy_scan(a: Seq<&str>, i: int, st: CopyState) -> Result<CopyState, ErrorKind>
    decreases a.len() - i,
{
    if i < 0 || i >= a.len() {
        Ok(st)
    } else {
        let t = a[i]@;
        let has_value = i + 1 < a.len() && !is_flag(a[i + 1].spec_bytes());
        if t == "--min-zoom"@ || t == "--max-zoom"@ {
            if !has_value {
                Err(ErrorKind::InvalidValue)
            } else {
                match parse_u8_spec(a[i + 1].spec_bytes()) {
                    None => Err(ErrorKind::ValueValidation),
                    Some(z) => if t == "--min-zoom"@ {
                        copy_scan(a, i + 2, CopyState { min_zoom: Some(z), ..st })
                    } else {
                        copy_scan(a, i + 2, CopyState { max_zoom: Some(z), ..st })
                    },
                }
            }
        } else if t == "--zoom-levels"@ {
            if !has_value {
                Err(ErrorKind::InvalidValue)
            } else {
                match parse_zoom_list_spec(a[i + 1].spec_bytes()) {
                    None => Err(ErrorKind::ValueValidation),
                    Some(l) => copy_scan(a, i + 2, CopyState { zoom_levels: Some(l), ..st }),
                }
            }
        } else if t == "--diff-with-file"@ {
            if !has_value {
                Err(ErrorKind::InvalidValue)
            } else {
                copy_scan(a, i + 2, CopyState { diff_with_file: Some(a[i + 1]@), ..st })
            }
        } else if t == "--on-duplicate"@ {
            if !has_value {
                Err(ErrorKind::InvalidValue)
            } else {
                match duplicate_mode_spec(a[i + 1]@) {
                    None => Err(ErrorKind::InvalidValue),
                    Some(m) => copy_scan(a, i + 2, CopyState { on_duplicate: m, ..st }),
                }
            }
        } else if t == "-v"@ || t == "--verbose"@ {
            copy_scan(a, i + 1, CopyState { verbose: true, ..st })
        } else if is_flag(a[i].spec_bytes()) || st.files.len() >= 2 {
            Err(ErrorKind::UnknownArgument)
        } else {
            copy_scan(a, i + 1, CopyState { files: st.files.push(t), ..st })
        }
    }
}

/// The outcome of the `copy` arguments that begin at `start`: both files must
/// be named, and an explicit list of zoom levels excludes either bound.
pub open spec fn copy_outcome(a: Seq<&str>, start: int) -> Result<CopyState, ErrorKind> {
    match copy_scan(a, start, initial_copy_state()) {
        Err(k) => Err(k),
        Ok(st) => if st.files.len() < 2 {
            Err(ErrorKind::MissingRequiredArgument)
        } else if st.zoom_levels is Some && (st.min_zoom is Some || st.max_zoom is Some) {
            Err(ErrorKind::ArgumentConflict)
        } else {
            Ok(st)
        },
    }
}

/// The options hold exactly what the arguments set.
pub open spec fn options_match(o: TileCopierOptions, st: CopyState) -> bool {
    &&& o.wf()
    &&& st.files.len() == 2
    &&& o.src_file@ == st.files[0]
    &&& o.dst_file@ == st.files[1]
    &&& o.min_zoom == st.min_zoom
    &&& o.max_zoom == st.max_zoom
    &&& match st.zoom_levels {
        Some(l) => o.zoom_set() == l.to_set() && o.zooms@.len() > 0,
        None => o.zooms@.len() == 0,
    }
    &&& match st.diff_with_file {
        Some(f) => o.diff_with_file matches Some(g) && g@ == f,
        None => o.diff_with_file is None,
    }
    &&& o.on_duplicate == st.on_duplicate
    &&& o.verbose == st.verbose
}

/// The outcome written as a parse result.
pub open spec fn copy_result_matches(a: Seq<&str>, start: int, r: Result<TileCopierOptions, ArgsError>) -> bool {
    match copy_outcome(a, start) {
        Ok(st) => r matches Ok(o) && options_match(o, st),
        Err(k) => r matches Err(e) && e.kind == k,
    }
}

spec fn state_of(
    files: Seq<String>,
    min_zoom: Option<u8>,
    max_zoom: Option<u8>,
    zoom_levels: Option<Vec<u8>>,
    diff_with_file: Option<String>,
    on_duplicate: CopyDuplicateMode,
    verbose: bool,
) -> CopyState {
    CopyState {
        files: files.map_values(|f: String| f@),
        min_zoom,
        max_zoom,
        zoom_levels: match zoom_levels {
            Some(v) => Some(v@),
            None => None,
        },
        diff_with_file: match diff_with_file {
            Some(f) => Some(f@),
            None => None,
        },
        on_duplicate,
        verbose,
    }
}

/// Parses the arguments of `copy`, which begin at `start`.
fn parse_copy(args: &[&str], start: usize) -> (r: Result<TileCopierOptions, ArgsError>)
    requires
        start <= args@.len(),
    ensures
        copy_result_matches(args@, start as int, r),
        r matches Ok(o) ==> o.wf() && !o.has_conflict(),
{
    let mut files: Vec<String> = Vec::new();
    let mut min_zoom: Option<u8> = None;
    let mut max_zoom: Option<u8> = None;
    let mut zoom_levels: Option<Vec<u8>> = None;
    let mut diff_with_file: Option<String> = None;
    let mut on_duplicate = CopyDuplicateMode::Override;
    let mut verbose = false;
    let mut i: usize = start;
    proof {
        assert(files@.map_values(|f: String| f@) =~= Seq::<Seq<char>>::empty());
        assert(state_of(files@, min_zoom, max_zoom, zoom_levels, diff_with_file, on_duplicate, verbose)
            == initial_copy_state());
    }
    while i < args.len()
        invariant
            start <= i <= args@.len(),
            zoom_levels matches Some(z) ==> z@.len() > 0,
            files@.len() <= 2,
            copy_scan(args@, start as int, initial_copy_state()) == copy_scan(
                args@,
                i as int,
                state_of(files@, min_zoom, max_zoom, zoom_levels, diff_with_file, on_duplicate, verbose),
            ),
        decreases args@.len() - i,
    {
        let ghost st = state_of(files@, min_zoom, max_zoom, zoom_levels, diff_with_file, on_duplicate, verbose);
        let t = args[i];
        if token_is(t, "--min-zoom") || token_is(t, "--max-zoom") {
            let v = match option_value(args, i) {
                Ok(v) => v,
                Err(e) => return Err(e),
            };
            let z = match parse_u8(v) {
                Some(z) => z,
                None => return err(ErrorKind::ValueValidation),
            };
            if token_is(t, "--min-zoom") {
                min_zoom = Some(z);
                proof {
                    assert(state_of(files@, min_zoom, max_zoom, zoom_levels, diff_with_file, on_duplicate, verbose)
                        == CopyState { min_zoom: Some(z), ..st });
                }
            } else {
                max_zoom = Some(z);
                proof {
                    assert(state_of(files@, min_zoom, max_zoom, zoom_levels, diff_with_file, on_duplicate, verbose)
                        == CopyState { max_zoom: Some(z), ..st });
                }
            }
            i += 2;
        } else if token_is(t, "--zoom-levels") {
            let v = match option_value(args, i) {
                Ok(v) => v,
                Err(e) => return Err(e),
            };
            match parse_zoom_list(v) {
                Some(z) => {
                    proof {
                        lemma_segments_nonempty(v.spec_bytes());
                    }
                    let ghost zv = z@;
                    zoom_levels = Some(z);
                    proof {
                        assert(state_of(files@, min_zoom, max_zoom, zoom_levels, diff_with_file, on_duplicate, verbose)
                            == CopyState { zoom_levels: Some(zv), ..st });
                    }
                },
                None => return err(ErrorKind::ValueValidation),
            }
            i += 2;
        } else if token_is(t, "--diff-with-file") {
            let v = match option_value(args, i) {
                Ok(v) => v,
                Err(e) => return Err(e),
            };
            diff_with_file = Some(v.to_owned());
            proof {
                assert(state_of(files@, min_zoom, max_zoom, zoom_levels, diff_with_file, on_duplicate, verbose)
                    == CopyState { diff_with_file: Some(args@[i + 1]@), ..st });
            }
            i += 2;
        } else if token_is(t, "--on-duplicate") {
            let v = match option_value(args, i) {
                Ok(v) => v,
                Err(e) => return Err(e),
            };
            match parse_duplicate_mode(v) {
                Some(m) => on_duplicate = m,
                None => return err(ErrorKind::InvalidValue),
            }
            proof {
                assert(state_of(files@, min_zoom, max_zoom, zoom_levels, diff_with_file, on_duplicate, verbose)
                    == CopyState { on_duplicate, ..st });
            }
            i += 2;
        } else if token_is(t, "-v") || token_is(t, "--verbose") {
            verbose = true;
            proof {
                assert(state_of(files@, min_zoom, max_zoom, zoom_levels, diff_with_file, on_duplicate, verbose)
                    == CopyState { verbose: true, ..st });
            }
            i += 1;
        } else if looks_like_flag(t) || files.len() >= 2 {
            return err(ErrorKind::UnknownArgument);
        } else {
            let ghost before = files@;
            files.push(t.to_owned());
            proof {
                assert(files@.map_values(|f: String| f@) =~= before.map_values(|f: String| f@).push(t@));
                assert(state_of(files@, min_zoom, max_zoom, zoom_levels, diff_with_file, on_duplicate, verbose)
                    == CopyState { files: st.files.push(t@), ..st });
            }
            i += 1;
        }
    }
    let ghost fin = state_of(files@, min_zoom, max_zoom, zoom_levels, diff_with_file, on_duplicate, verbose);
    proof {
        assert(copy_scan(args@, start as int, initial_copy_state()) == Ok::<CopyState, ErrorKind>(fin));
    }
    if files.len() < 2 {
        return err(ErrorKind::MissingRequiredArgument);
    }
    let ghost names = fin.files;
    let dst_file = files.pop().unwrap();
    let src_file = files.pop().unwrap();
    proof {
        assert(src_file@ == names[0]);
        assert(dst_file@ == names[1]);
    }
    let mut o = TileCopierOptions::new(src_file, dst_file);
    match zoom_levels {
        Some(z) => {
            if min_zoom.is_some() || max_zoom.is_some() {
                return err(ErrorKind::ArgumentConflict);
            }
            let ghost first = z@[0];
            o = o.zoom_levels(z);
            proof {
                assert(o.zoom_set().contains(first));
            }
        },
        None => {},
    }
    o = o.min_zoom(min_zoom).max_zoom(max_zoom).on_duplicate(on_duplicate).verbose(verbose);
    match diff_with_file {
        Some(f) => o = o.diff_with_file(f),
        None => {},
    }
    Ok(o)
}

/// Where the subcommand stands: after the program name and an optional verbose flag.
pub open spec fn command_index(args: Seq<&str>) -> int {
    if args.len() > 1 && is_verbose_flag(args[1]@) {
        2
    } else {
        1
    }
}

pub open spec fn outcome_missing(a: Seq<&str>, r: Result<Args, ArgsError>) -> bool {
    let p = command_index(a);
    a.len() <= p ==> (r matches Err(e) && e.kind == ErrorKind::MissingSubcommand)
}

pub open spec fn outcome_verbose(a: Seq<&str>, r: Result<Args, ArgsError>) -> bool {
    let p = command_index(a);
    r matches Ok(x) ==> x.verbose == (p == 2)
}

pub open spec fn outcome_validate(a: Seq<&str>, r: Result<Args, ArgsError>) -> bool {
    let p = command_index(a);
    a.len() > p && a[p]@ == "validate"@ ==> (r is Ok <==> a.len() == p + 2 && forall|k: int| p < k < a.len() ==> !is_flag(#[trigger] a[k].spec_bytes())) && (r matches Ok(x) ==> x.command matches Commands::Validate { file } && file@ == a[p + 1]@)
}

pub open spec fn outcome_apply_diff(a: Seq<&str>, r: Result<Args, ArgsError>) -> bool {
    let p = command_index(a);
    a.len() > p && a[p]@ == "apply-diff"@ ==> (r is Ok <==> a.len() == p + 3 && forall|k: int| p < k < a.len() ==> !is_flag(#[trigger] a[k].spec_bytes())) && (r matches Ok(x) ==> x.command matches Commands::ApplyDiff { src_file, diff_file, } && src_file@ == a[p + 1]@ && diff_file@ == a[p + 2]@)
}

pub open spec fn outcome_meta_get(a: Seq<&str>, r: Result<Args, ArgsError>) -> bool {
    let p = command_index(a);
    a.len() > p && a[p]@ == "meta-get"@ ==> (r is Ok <==> a.len() == p + 3 && forall|k: int| p < k < a.len() ==> !is_flag(#[trigger] a[k].spec_bytes())) && (r matches Ok(x) ==> x.command matches Commands::MetaGetValue { file, key, } && file@ == a[p + 1]@ && key@ == a[p + 2]@)
}

pub open spec fn outcome_meta_set(a: Seq<&str>, r: Result<Args, ArgsError>) -> bool {
    let p = command_index(a);
    a.len() > p && a[p]@ == "meta-set"@ ==> (r is Ok <==> (a.len() == p + 3 || a.len() == p + 4) && forall|k: int| p < k < a.len() ==> !is_flag(#[trigger] a[k].spec_bytes())) && (r matches Ok(x) ==> x.command matches Commands::MetaSetValue { file, key, value } && file@ == a[p + 1]@ && key@ == a[p + 2]@ && (a.len() == p + 3 ==> value is None) && (a.len() == p + 4 ==> (value matches Some(v) && v@ == a[p + 3]@)))
}

pub open spec fn outcome_copy(a: Seq<&str>, r: Result<Args, ArgsError>) -> bool {
    let p = command_index(a);
    a.len() > p && a[p]@ == "copy"@ ==> match copy_outcome(a, p + 1) {
        Ok(st) => r matches Ok(x) && x.command matches Commands::Copy(o) && options_match(o, st)
            && !o.has_conflict(),
        Err(k) => r matches Err(e) && e.kind == k,
    }
}

pub open spec fn outcome_unknown(a: Seq<&str>, r: Result<Args, ArgsError>) -> bool {
    let p = command_index(a);
    a.len() > p && a[p]@ != "validate"@ && a[p]@ != "apply-diff"@ && a[p]@ != "meta-get"@ && a[p]@ != "meta-set"@ && a[p]@ != "copy"@ ==> r is Err
}

impl Args {
    /// Parses a command line; the first token is the program name.
    pub fn try_parse_from(args: &[&str]) -> (r: Result<Args, ArgsError>)
        ensures
            outcome_missing(args@, r),
            outcome_verbose(args@, r),
            outcome_validate(args@, r),
            outcome_apply_diff(args@, r),
            outcome_meta_get(args@, r),
            outcome_meta_set(args@, r),
            outcome_copy(args@, r),
            outcome_unknown(args@, r),
    {
        proof {
            reveal_strlit("validate");
            reveal_strlit("apply-diff");
            reveal_strlit("meta-get");
            reveal_strlit("meta-set");
            reveal_strlit("copy");
            assert("validate"@[0] != "apply-diff"@[0] && "validate"@[0] != "meta-get"@[0]);
            assert("validate"@[0] != "meta-set"@[0] && "validate"@[0] != "copy"@[0]);
            assert("apply-diff"@[0] != "meta-get"@[0] && "apply-diff"@[0] != "meta-set"@[0]);
            assert("apply-diff"@[0] != "copy"@[0] && "meta-get"@[0] != "copy"@[0]);
            assert("meta-set"@[0] != "copy"@[0] && "meta-get"@[5] != "meta-set"@[5]);
        }
        let mut p: usize = 1;
        let mut verbose = false;
        if args.len() > 1 && (token_is(args[1], "-v") || token_is(args[1], "--verbose")) {
            p = 2;
            verbose = true;
        }
        if args.len() <= p {
            return err(ErrorKind::MissingSubcommand);
        }
        let name = args[p];
        let command = if token_is(name, "validate") {
            let v = match positionals(args, p + 1, 1, 1) {
                Ok(v) => v,
                Err(e) => return Err(e),
            };
            Commands::Validate { file: v[0].clone() }
        } else if token_is(name, "apply-diff") {
            let v = match positionals(args, p + 1, 2, 2) {
                Ok(v) => v,
                Err(e) => return Err(e),
            };
            Commands::ApplyDiff { src_file: v[0].clone(), diff_file: v[1].clone() }
        } else if token_is(name, "meta-get") {
            let v = match positionals(args, p + 1, 2, 2) {
                Ok(v) => v,
                Err(e) => return Err(e),
            };
            Commands::MetaGetValue { file: v[0].clone(), key: v[1].clone() }
        } else if token_is(name, "meta-set") {
            let v = match positionals(args, p + 1, 2, 3) {
                Ok(v) => v,
                Err(e) => return Err(e),
            };
            let value = if v.len() == 3 {
                Some(v[2].clone())
            } else {
                None
            };
            Commands::MetaSetValue { file: v[0].clone(), key: v[1].clone(), value }
        } else if token_is(name, "copy") {
            match parse_copy(args, p + 1) {
                Ok(o) => Commands::Copy(o),
                Err(e) => return Err(e),
            }
        } else if looks_like_flag(name) {
            return err(ErrorKind::UnknownArgument);
        } else {
            return err(ErrorKind::InvalidSubcommand);
        };
        Ok(Args { verbose, command })
    }
}

} // verus!
