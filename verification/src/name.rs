//! Naming the files that extracted samples are written to, and the folder
//! that holds the samples of a module.

use vstd::prelude::*;
use crate::export::{AudioFormat, format_extension};
use crate::module::GenericTracker;
use crate::sample::{Sample, sample_filename};
use crate::text::{
    ascii_cased, decimal, decimal_chars, os_text, replace_char, replaced, str_chars, string_from_chars, to_ascii_case,
    trim_char, trim_chars, trim_end_all, trim_end_matches, zero_pad, zero_padded,
};

verus! {

/// A path that is one normal component on every platform: not empty, not
/// `.` or `..`, and without the characters that separate components or
/// start a prefix anywhere (`/`, `\\`, `:`).
pub open spec fn single_component(p: Seq<char>) -> bool {
    &&& p.len() > 0
    &&& !p.contains('/')
    &&& !p.contains('\\')
    &&& !p.contains(':')
    &&& p != seq!['.']
    &&& p != seq!['.', '.']
}

/// The path without its trailing `/` characters.
pub open spec fn trim_end_slashes(p: Seq<char>) -> Seq<char>
    decreases p.len(),
{
    if p.len() > 0 && p.last() == '/' { trim_end_slashes(p.drop_last()) } else { p }
}

/// The characters after the last `/` (the whole text where it has none).
pub open spec fn after_last_slash(p: Seq<char>) -> Seq<char>
    decreases p.len(),
{
    if p.len() == 0 || p.last() == '/' { Seq::empty() } else { after_last_slash(p.drop_last()).push(p.last()) }
}

/// The last part of a path between `/` characters, trailing ones ignored.
pub open spec fn last_part(p: Seq<char>) -> Seq<char> {
    after_last_slash(trim_end_slashes(p))
}

/// A path that `/` alone divides into components on every platform: it
/// holds no `\\` or `:`, with which Windows paths start a prefix or separate
/// components, and it does not start with two `/`, which Windows may read
/// as the prefix of a network share.
pub open spec fn plain_path(p: Seq<char>) -> bool {
    &&& !p.contains('\\')
    &&& !p.contains(':')
    &&& !(p.len() >= 2 && p[0] == '/' && p[1] == '/')
}

/// The final component of a path (`std::path::Path::file_name`), as text
/// (`OsStr::to_str`, which gives back any text that came from a `str`).
/// std documents it as the final component, where there is one, and
/// `None` for a path that ends in `..`; components are separated by `/`
/// on every platform, repeated and trailing separators do not count, and
/// only Windows adds `\\` and prefixes. So, where `/` alone divides the path
/// (`plain_path`), its file name is its last part where that is a normal
/// component, and there is none where the last part is `..`. A path with no
/// part at all (empty, or only `/`, as std's own example `/` shows) has no
/// file name on any platform. Of other paths only this is stated: a file
/// name is not empty and holds no `/`.
#[verifier::external_body]
fn path_file_name(path: &str) -> (r: Option<String>)
    ensures
        r matches Some(n) ==> n@.len() > 0 && !n@.contains('/'),
        plain_path(path@) && single_component(last_part(path@)) ==> r is Some && r->0@ == last_part(path@),
        plain_path(path@) && last_part(path@) == seq!['.', '.'] ==> r is None,
        trim_end_slashes(path@).len() == 0 ==> r is None,
{
    std::path::Path::new(path).file_name().and_then(|f| f.to_str()).map(|f| f.to_owned())
}

/// Folder name for a module whose file is named `file_name`: its dots
/// replaced by underscores.
pub fn folder_name_of(file_name: &str) -> (r: String)
    ensures
        r@ == replaced(file_name@, '.', '_'),
{
    replace_char(file_name, '.', '_')
}

/// Turns a path to a module e.g test_module.it
///
/// into a filename like: test_module_it
///
/// The name comes from the path's file name; a path without one gives none.
pub fn create_folder_name(path: &str) -> (r: Option<String>)
    ensures
        r matches Some(n) ==> n@.len() > 0 && !n@.contains('.') && !n@.contains('/'),
        plain_path(path@) && single_component(last_part(path@)) ==> r is Some
            && r->0@ == replaced(last_part(path@), '.', '_'),
        plain_path(path@) && last_part(path@) == seq!['.', '.'] ==> r is None,
        trim_end_slashes(path@).len() == 0 ==> r is None,
{
    match path_file_name(path) {
        Some(f) => {
            let n = folder_name_of(f.as_str());
            assert(!n@.contains('.') && !n@.contains('/')) by {
                if n@.contains('.') {
                    let i = choose|i: int| 0 <= i < n@.len() && n@[i] == '.';
                    assert(replaced(f@, '.', '_')[i] != '.');
                }
                if n@.contains('/') {
                    let i = choose|i: int| 0 <= i < n@.len() && n@[i] == '/';
                    assert(f@[i] == '/');
                }
            }
            Some(n)
        },
        None => None,
    }
}

/// The characters before the first dot.
pub open spec fn before_dot(s: Seq<char>) -> Seq<char>
    decreases s.len(),
{
    if s.len() == 0 || s[0] == '.' {
        Seq::empty()
    } else {
        seq![s[0]] + before_dot(s.drop_first())
    }
}

/// Name of a module's source from its file name: the whole name with dots
/// replaced by underscores, or the part before its first dot.
pub open spec fn source_name_spec(file_name: Seq<char>, with_file_extension: bool) -> Option<Seq<char>> {
    if with_file_extension {
        Some(replaced(file_name, '.', '_'))
    } else if file_name.len() == 0 {
        None
    } else {
        Some(before_dot(file_name))
    }
}

/// Name of a module's source from the file name of its path.
pub fn source_name_of(file_name: &str, with_file_extension: bool) -> (r: Option<String>)
    ensures
        r matches Some(n) ==> source_name_spec(file_name@, with_file_extension) == Some(n@),
        r is None ==> source_name_spec(file_name@, with_file_extension) is None,
{
    if with_file_extension {
        return Some(replace_char(file_name, '.', '_'));
    }
    let c = str_chars(file_name);
    if c.len() == 0 {
        return None;
    }
    let mut v: Vec<char> = Vec::new();
    let mut i: usize = 0;
    while i < c.len() && c[i] != '.'
        invariant
            i <= c@.len(),
            c@ == file_name@,
            v@ == c@.take(i as int),
            forall|k: int| 0 <= k < i ==> c@[k] != '.',
        decreases c@.len() - i,
    {
        v.push(c[i]);
        i += 1;
        assert(v@ =~= c@.take(i as int));
    }
    proof {
        lemma_before_dot(c@, i as int);
    }
    Some(string_from_chars(&v))
}

proof fn lemma_before_dot(s: Seq<char>, n: int)
    requires
        0 <= n <= s.len(),
        forall|k: int| 0 <= k < n ==> s[k] != '.',
        n == s.len() || s[n] == '.',
    ensures
        before_dot(s) == s.take(n),
    decreases s.len(),
{
    if s.len() > 0 && n > 0 {
        lemma_before_dot(s.drop_first(), n - 1);
        assert(seq![s[0]] + s.drop_first().take(n - 1) =~= s.take(n));
    } else if s.len() > 0 {
        assert(s.take(0) =~= Seq::<char>::empty());
    }
}

/// Name of a module's source from its path: its file name with dots
/// replaced by underscores, or the part of it before the first dot.
pub fn source_name(path: Option<&str>, with_file_extension: bool) -> (r: Option<String>)
    ensures
        path is None ==> r is None,
        r matches Some(n) ==> !n@.contains('.'),
        path is Some && plain_path(path->0@) && single_component(last_part(path->0@)) ==> r is Some
            && source_name_spec(last_part(path->0@), with_file_extension) == Some(r->0@),
        path is Some && plain_path(path->0@) && last_part(path->0@) == seq!['.', '.'] ==> r is None,
        path is Some && trim_end_slashes(path->0@).len() == 0 ==> r is None,
{
    let p = match path {
        Some(p) => p,
        None => {
            return None;
        },
    };
    let f = match path_file_name(p) {
        Some(f) => f,
        None => {
            return None;
        },
    };
    let r = source_name_of(f.as_str(), with_file_extension);
    proof {
        if r is Some {
            let n = r->0;
            if n@.contains('.') {
                let i = choose|i: int| 0 <= i < n@.len() && n@[i] == '.';
                if with_file_extension {
                    assert(replaced(f@, '.', '_')[i] != '.');
                } else {
                    lemma_before_dot_no_dot(f@, i);
                }
            }
        }
    }
    r
}

proof fn lemma_before_dot_no_dot(s: Seq<char>, i: int)
    requires
        0 <= i < before_dot(s).len(),
    ensures
        before_dot(s)[i] != '.',
    decreases s.len(),
{
    if i > 0 {
        lemma_before_dot_no_dot(s.drop_first(), i - 1);
    }
}

/// A function that names the files that samples are written to, from the
/// sample, the ripping context and the sample's position.
pub trait SampleNamerTrait: Fn(&Sample, &Context, usize) -> String {}

impl<T: Fn(&Sample, &Context, usize) -> String> SampleNamerTrait for T {}

/// Provide context about the ripping process.
///
/// Should be used to make naming samples consistent.
pub struct Context<'a> {
    /// Total samples
    pub total: usize,
    /// File extension of audio format
    pub extension: &'a str,
    /// Highest sample index
    pub highest: usize,
    /// Path of the module's file, where it is known
    pub source_path: Option<&'a str>,
}

impl<'a> Context<'a> {
    pub fn new(total: usize, extension: &'a str, highest: usize) -> (r: Self)
        ensures
            r.total == total,
            r.extension@ == extension@,
            r.highest == highest,
            r.source_path is None,
    {
        Context { total, extension, highest, source_path: None }
    }
}

/// The largest one-based raw index of the samples.
pub open spec fn highest_index(s: Seq<Sample>) -> nat
    decreases s.len(),
{
    if s.len() == 0 {
        0
    } else {
        let h = highest_index(s.drop_last());
        let x = s.last().index_raw + 1;
        if x > h { x as nat } else { h }
    }
}

/// The context of ripping a module's samples to a format.
pub fn build_context<'a>(module: &'a GenericTracker, audio_format: &AudioFormat) -> (r: Context<'a>)
    requires
        module.samples@.len() > 0,
    ensures
        r.total == module.samples@.len(),
        r.extension@ == format_extension(*audio_format),
        r.highest == highest_index(module.samples@),
        r.source_path is Some <==> module.info.source is Some,
        r.source_path matches Some(p) ==> p@ == module.info.source->0@,
{
    let samples = module.samples();
    let mut highest: usize = 0;
    let mut i: usize = 0;
    while i < samples.len()
        invariant
            samples@ == module.samples@,
            i <= samples@.len(),
            highest == highest_index(samples@.take(i as int)),
            highest <= 0x10000,
        decreases samples@.len() - i,
    {
        assert(samples@.take(i as int + 1).drop_last() =~= samples@.take(i as int));
        let x = samples[i].index_raw();
        if x > highest {
            highest = x;
        }
        i += 1;
    }
    assert(samples@.take(samples@.len() as int) =~= samples@);
    Context { total: samples.len(), extension: audio_format.extension(), highest, source_path: module.source() }
}

/// Calculate the number of digits for a given ``usize``
fn digits(n: usize) -> (r: usize)
    ensures
        r == decimal(n as nat).len(),
{
    decimal_chars(n as u64).len()
}

/// A larger number never has fewer decimal digits.
proof fn lemma_decimal_len_monotone(a: nat, b: nat)
    requires
        a <= b,
    ensures
        decimal(a).len() <= decimal(b).len(),
    decreases b,
{
    if a >= 10 {
        lemma_decimal_len_monotone(a / 10, b / 10);
    } else if b >= 10 {
        lemma_decimal_len_monotone(0, b / 10);
    }
}

/// Every index up to the largest is written with the same number of
/// digits: the padding, or the largest index's digits where they are more.
/// File names then sort in index order.
pub proof fn law_index_width(namer: SampleNamer, idx: nat, largest: nat)
    requires
        idx <= largest,
    ensures
        zero_padded(idx, index_width(namer, largest)).len() == index_width(namer, largest),
        index_width(namer, largest) >= decimal(largest).len(),
        index_width(namer, largest) >= namer.index_padding,
{
    lemma_decimal_len_monotone(idx, largest);
}

/// Struct to customize how samples are named
#[derive(Debug, Clone, Copy, Hash)]
pub struct SampleNamer {
    /// Prefix exported samples
    pub prefix_source: bool,
    /// Only name samples with an index
    pub index_only: bool,
    /// Minimum amount of zeros to pad the index.
    ///
    /// If this value is less than the number of digits in the total,
    /// it will fallback to that.
    pub index_padding: u8,
    /// Sample index will match its internal position
    pub index_raw: bool,
    /// Prefer using the filename.
    /// Will fallback to ``name`` if ``filename`` is ``None``
    pub prefer_filename: bool,
    /// Name samples in lower case
    pub lower: bool,
    /// Name samples in upper case
    pub upper: bool,
}

impl Default for SampleNamer {
    fn default() -> (r: Self)
        ensures
            !r.prefix_source && !r.index_only && r.index_padding == 2 && !r.index_raw && r.prefer_filename
                && !r.lower && !r.upper,
    {
        SampleNamer {
            index_only: false,
            index_padding: 2,
            index_raw: false,
            lower: false,
            upper: false,
            prefer_filename: true,
            prefix_source: false,
        }
    }
}

/// The index and the number it is padded against: the raw index and the
/// highest one, or the position among the samples and their total.
pub open spec fn index_and_largest(namer: SampleNamer, smp: Sample, total: nat, highest: nat, index: nat) -> (nat, nat) {
    if namer.index_raw { ((smp.index_raw + 1) as nat, highest) } else { (index + 1, total) }
}

/// The width the index is padded to: the minimum padding, or the number of
/// digits of the largest index where that is more.
pub open spec fn index_width(namer: SampleNamer, largest: nat) -> nat {
    let d = decimal(largest).len();
    if d > namer.index_padding { d } else { namer.index_padding as nat }
}

/// The name part of the file name: ` - ` and the sample's name (or
/// filename), without the format's extension, its dots replaced by
/// underscores, in the case asked for; nothing where the name is empty.
pub open spec fn name_part(namer: SampleNamer, smp: Sample, ext: Seq<char>) -> Seq<char> {
    let filename = os_text(sample_filename(smp));
    let name = if namer.prefer_filename && filename.len() > 0 { filename } else { os_text(smp.name@) };
    if name.len() == 0 {
        name
    } else {
        let t = replaced(
            trim_end_all(trim_end_all(name, seq!['.'] + ascii_cased(ext, false)), seq!['.'] + ascii_cased(ext, true)),
            '.',
            '_',
        );
        let c = if namer.upper && !namer.lower {
            ascii_cased(t, true)
        } else if !namer.upper && namer.lower {
            ascii_cased(t, false)
        } else {
            t
        };
        seq![' ', '-', ' '] + c
    }
}

/// The file name of the sample at `index` (zero-based) of the samples being
/// ripped: the source's name where it is asked for and known (`prefix`),
/// the zero-padded index, the name part unless only the index is asked for,
/// and the extension without its leading and trailing dots.
pub open spec fn sample_file_name(
    namer: SampleNamer,
    smp: Sample,
    total: nat,
    highest: nat,
    extension: Seq<char>,
    index: nat,
    prefix: Option<Seq<char>>,
) -> Seq<char> {
    let (idx, largest) = index_and_largest(namer, smp, total, highest, index);
    let ext = trim_char(extension, '.');
    let p = match prefix {
        Some(p) => if namer.prefix_source { p + seq![' ', '-', ' '] } else { Seq::empty() },
        None => Seq::empty(),
    };
    let name = if namer.index_only { Seq::empty() } else { name_part(namer, smp, ext) };
    p + zero_padded(idx, index_width(namer, largest)) + name + seq!['.'] + ext
}

/// Whether a sample can be named in this context: its position has a
/// successor, which is its one-based index.
pub open spec fn nameable(namer: SampleNamer, smp: Sample, total: nat, highest: nat, index: nat) -> bool {
    index < usize::MAX
}

impl SampleNamer {
    /// The name part of a sample's file name.
    fn name_component(&self, smp: &Sample, ext: &Vec<char>) -> (r: Vec<char>)
        ensures
            r@ == name_part(*self, *smp, ext@),
    {
        let filename = smp.filename_pretty();
        let name = if self.prefer_filename && filename.as_str().unicode_len() > 0 {
            filename
        } else {
            smp.name_pretty()
        };
        let chars = str_chars(name.as_str());
        let ghost sf = os_text(sample_filename(*smp));
        let ghost sn = if self.prefer_filename && sf.len() > 0 { sf } else { os_text(smp.name@) };
        assert(chars@ == sn);
        if chars.len() == 0 {
            return chars;
        }
        let mut lower_ext: Vec<char> = vec!['.'];
        let mut l = to_ascii_case(ext.clone(), false);
        lower_ext.append(&mut l);
        let mut upper_ext: Vec<char> = vec!['.'];
        let mut u = to_ascii_case(ext.clone(), true);
        upper_ext.append(&mut u);
        let t1 = trim_end_matches(chars, &lower_ext);
        let t2 = trim_end_matches(t1, &upper_ext);
        let t3 = str_chars(replace_char(string_from_chars(&t2).as_str(), '.', '_').as_str());
        let mut c = if self.upper && !self.lower {
            to_ascii_case(t3, true)
        } else if !self.upper && self.lower {
            to_ascii_case(t3, false)
        } else {
            t3
        };
        assert(lower_ext@ == seq!['.'] + ascii_cased(ext@, false));
        assert(upper_ext@ == seq!['.'] + ascii_cased(ext@, true));
        assert(t3@ == replaced(trim_end_all(trim_end_all(sn, seq!['.'] + ascii_cased(ext@, false)), seq!['.'] + ascii_cased(ext@, true)), '.', '_'));
        let mut out: Vec<char> = vec![' ', '-', ' '];
        out.append(&mut c);
        out
    }

    /// The file name of the sample at `index` of the samples being ripped,
    /// with the source's name (`prefix`) as it was found.
    pub fn file_name_with_prefix(&self, smp: &Sample, ctx: &Context, index: usize, prefix: Option<&str>) -> (r: String)
        requires
            nameable(*self, *smp, ctx.total as nat, ctx.highest as nat, index as nat),
        ensures
            r@ == sample_file_name(
                *self, *smp, ctx.total as nat, ctx.highest as nat, ctx.extension@, index as nat,
                match prefix { Some(p) => Some(p@), None => None },
            ),
    {
        let (idx, largest) = if self.index_raw {
            (smp.index_raw(), ctx.highest)
        } else {
            (index + 1, ctx.total)
        };
        let d = digits(largest);
        let width: usize = if d > self.index_padding as usize { d } else { self.index_padding as usize };
        let ext = trim_chars(ctx.extension, '.');
        let mut out: Vec<char> = Vec::new();
        if self.prefix_source {
            if let Some(p) = prefix {
                out = str_chars(p);
                out.push(' ');
                out.push('-');
                out.push(' ');
            }
        }
        let ghost p_part = out@;
        let mut index_part = zero_pad(idx, width);
        out.append(&mut index_part);
        if !self.index_only {
            let mut name = self.name_component(smp, &ext);
            out.append(&mut name);
        }
        out.push('.');
        let mut e = ext.clone();
        out.append(&mut e);
        let ghost expected = sample_file_name(
            *self, *smp, ctx.total as nat, ctx.highest as nat, ctx.extension@, index as nat,
            match prefix { Some(p) => Some(p@), None => None },
        );
        assert(out@ =~= expected);
        string_from_chars(&out)
    }

    /// The file name of the sample at `index` of the samples being ripped.
    /// Where the namer prefixes the source's name, that name is taken from
    /// the file name of the context's path, as the platform finds it: for a
    /// path that `/` alone divides, its last part with dots replaced.
    pub fn file_name(&self, smp: &Sample, ctx: &Context, index: usize) -> (r: String)
        requires
            nameable(*self, *smp, ctx.total as nat, ctx.highest as nat, index as nat),
        ensures
            named_as(*self, *smp, *ctx, index, r@),
    {
        let prefix = if self.prefix_source { source_name(ctx.source_path, true) } else { None };
        let r = match &prefix {
            Some(p) => self.file_name_with_prefix(smp, ctx, index, Some(p.as_str())),
            None => self.file_name_with_prefix(smp, ctx, index, None),
        };
        proof {
            let pv: Option<Seq<char>> = match prefix { Some(p) => Some(p@), None => None };
            assert(r@ == sample_file_name(
                *self, *smp, ctx.total as nat, ctx.highest as nat, ctx.extension@, index as nat, pv,
            ));
        }
        r
    }

    /// Construct a function that names samples as this namer does.
    pub fn to_func(self) -> (f: impl Fn(&Sample, &Context, usize) -> String)
        ensures
            forall|smp: &Sample, ctx: &Context, index: usize|
                nameable(self, *smp, ctx.total as nat, ctx.highest as nat, index as nat) ==> #[trigger] f.requires((smp, ctx, index)),
            forall|smp: &Sample, ctx: &Context, index: usize, r: String|
                #[trigger] f.ensures((smp, ctx, index), r) ==> named_as(self, *smp, *ctx, index, r@),
    {
        move |smp: &Sample, ctx: &Context, index: usize| -> (r: String)
            requires
                nameable(self, *smp, ctx.total as nat, ctx.highest as nat, index as nat),
            ensures
                named_as(self, *smp, *ctx, index, r@),
            {
                self.file_name(smp, ctx, index)
            }
    }
}

/// Whether `r` is the file name that `namer` gives the sample at `index`:
/// with the source's name as the platform finds it where the namer
/// prefixes it; for a path that `/` alone divides, its last part with dots
/// replaced.
pub open spec fn named_as(namer: SampleNamer, smp: Sample, ctx: Context, index: usize, r: Seq<char>) -> bool {
    &&& exists|prefix: Option<Seq<char>>|
        (!namer.prefix_source || ctx.source_path is None ==> prefix is None)
        && r == #[trigger] sample_file_name(
            namer, smp, ctx.total as nat, ctx.highest as nat, ctx.extension@, index as nat, prefix,
        )
    &&& !namer.prefix_source || ctx.source_path is None ==> r == sample_file_name(
        namer, smp, ctx.total as nat, ctx.highest as nat, ctx.extension@, index as nat, None,
    )
    &&& namer.prefix_source && ctx.source_path is Some && plain_path(ctx.source_path->0@)
        && single_component(last_part(ctx.source_path->0@)) ==> r == sample_file_name(
        namer, smp, ctx.total as nat, ctx.highest as nat, ctx.extension@, index as nat,
        Some(replaced(last_part(ctx.source_path->0@), '.', '_')),
    )
}

} // verus!
