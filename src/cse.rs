use crate::archive::{
    archive_entries, entry_count, entry_data, entry_name, open_archive, zip_entries,
};
use crate::epw::Epw;
use crate::files::{has_name, Files};
use crate::format::{Ecad, Format};
use crate::text::{
    join, join_path, strip_prefix, strip_suffix, trim, trimmed, without_prefix, without_suffix,
};
use base64::Engine;
use vstd::prelude::*;

verus! {

/// The catalogue endpoint; a package's identifier is appended to it.
pub const COMPONENT_SEARCH_ENGINE_URL: &'static str = "https://componentsearchengine.com/ga/model.php?partID=";

/// The only content type a package download may carry.
pub const CONTENT_TYPE_ZIP: &'static str = "application/x-zip";

/// The file name used when the response names none.
pub const DEFAULT_FILENAME: &'static str = "unknown.zip";

/// The scheme that opens the `Authorization` header.
pub const AUTH_SCHEME: &'static str = "Basic ";

/// The standard, padded base64 text of the UTF-8 bytes of `s`.
pub uninterp spec fn base64_of(s: Seq<char>) -> Seq<char>;

/// Relies on base64's `Engine::encode` on the `STANDARD` engine: the padded
/// standard alphabet encoding of the string's bytes, empty for an empty string.
#[verifier::external_body]
fn to_base64(s: &str) -> (r: String)
    ensures
        r@ == base64_of(s@),
        s@.len() == 0 ==> r@.len() == 0,
{
    base64::engine::general_purpose::STANDARD.encode(s)
}

/// What the fetch of one package brought back, as plain values.
#[derive(Clone, Debug)]
pub struct Response {
    /// The HTTP status code.
    pub status: u16,
    /// The `content-type` header, where present and readable as text.
    pub content_type: Option<String>,
    /// The `content-disposition` header, where present.
    pub content_disposition: Option<String>,
    /// The whole body, or none where copying it failed.
    pub body: Option<Vec<u8>>,
}

/// Why one (descriptor, format) run failed.
#[derive(Clone, Debug)]
pub enum CseError {
    /// The server answered with a status outside 200..=299.
    Status(u16),
    /// The content type was not that of a zip package.
    ContentType,
    /// The body could not be read.
    BodyCopy,
    /// The package is no readable zip archive, or an entry could not be read.
    Archive,
    /// An extractor refused an entry, for the reason given.
    Extraction(String),
    /// Two entries of the output were given the same name.
    Collision(String),
    /// A passthrough format reached the archive dispatch.
    Internal,
}

/// One save-ready outcome: a directory and the files to write into it.
#[derive(Clone, Debug)]
pub struct CSEResult {
    pub output_path: String,
    pub files: Files,
}

/// The format-specific rules that turn one archive entry into output files.
pub trait Extractor {
    /// The files that entry `name`, holding `data`, yields for layout `ecad`
    /// (none where the layout leaves it out), or why it cannot be placed.
    spec fn outcome(&self, ecad: Ecad, name: Seq<char>, data: Seq<u8>) -> Result<
        Seq<(Seq<char>, Seq<u8>)>,
        Seq<char>,
    >;

    /// Places one entry, as `outcome` says.
    fn extract(&self, ecad: Ecad, name: &String, data: &Vec<u8>) -> (r: Result<
        Vec<(String, Vec<u8>)>,
        String,
    >)
        ensures
            match r {
                Ok(v) => self.outcome(ecad, name@, data@) == Ok::<
                    Seq<(Seq<char>, Seq<u8>)>,
                    Seq<char>,
                >(output_views(v@)),
                Err(m) => self.outcome(ecad, name@, data@) == Err::<
                    Seq<(Seq<char>, Seq<u8>)>,
                    Seq<char>,
                >(m@),
            },
    ;
}

/// Why an archive dispatch stops.
pub enum Fault {
    /// An entry's bytes cannot be read.
    Archive,
    /// The extractor refused an entry, for this reason.
    Extraction(Seq<char>),
    /// A file of this name was yielded twice.
    Collision(Seq<char>),
}

/// Whether error `e` reports fault `f`.
pub open spec fn reports(f: Fault, e: CseError) -> bool {
    match f {
        Fault::Archive => e is Archive,
        Fault::Extraction(m) => e matches CseError::Extraction(s) && s@ == m,
        Fault::Collision(n) => e matches CseError::Collision(s) && s@ == n,
    }
}

/// The files that dispatching the entries `es` in order yields: each entry
/// is read and handed to the extractor, what it yields is added, and the
/// first entry that cannot be read, is refused or collides ends the run.
pub open spec fn dispatched<X: Extractor + ?Sized>(
    x: &X,
    ecad: Ecad,
    es: Seq<(Seq<char>, Option<Seq<u8>>)>,
) -> Result<Seq<(Seq<char>, Seq<u8>)>, Fault>
    decreases es.len(),
{
    if es.len() == 0 {
        Ok(Seq::empty())
    } else {
        match dispatched(x, ecad, es.drop_last()) {
            Err(f) => Err(f),
            Ok(acc) => match es.last().1 {
                None => Err(Fault::Archive),
                Some(d) => match x.outcome(ecad, es.last().0, d) {
                    Err(m) => Err(Fault::Extraction(m)),
                    Ok(v) => match add_all(acc, v) {
                        Ok(t) => Ok(t),
                        Err(n) => Err(Fault::Collision(n)),
                    },
                },
            },
        }
    }
}

/// What unzipping `data` for `format` under library name `lib` owes: the
/// internal error for the passthrough layout; an archive error for bytes that
/// hold no archive; otherwise the outcome of dispatching its entries, placed
/// under the format's directory joined with `lib`.
pub open spec fn unzipped<X: Extractor + ?Sized>(
    format: Format,
    lib: Seq<char>,
    data: Seq<u8>,
    x: &X,
    r: Result<CSEResult, CseError>,
) -> bool {
    &&& r matches Ok(o) ==> o.files.wf()
    &&& format.ecad == Ecad::Zip ==> (r matches Err(CseError::Internal))
    &&& format.ecad != Ecad::Zip ==> (match zip_entries(data) {
        None => r matches Err(CseError::Archive),
        Some(es) => match dispatched(x, format.ecad, es) {
            Ok(t) => r matches Ok(o) && o.files@ == t && o.output_path@ == join_path(
                format.output_path@,
                lib,
            ),
            Err(f) => r matches Err(e) && reports(f, e),
        },
    })
}

/// Whether a status code means success.
pub open spec fn is_success(status: u16) -> bool {
    200 <= status <= 299
}

/// The verdict on a response before its body is used.
pub open spec fn fetch_check(res: Response) -> Result<(), CseError> {
    if !is_success(res.status) {
        Err(CseError::Status(res.status))
    } else if !(res.content_type matches Some(c) && c@ == CONTENT_TYPE_ZIP@) {
        Err(CseError::ContentType)
    } else if res.body is None {
        Err(CseError::BodyCopy)
    } else {
        Ok(())
    }
}

/// The file name that a `content-disposition` header gives.
pub open spec fn disposition_name(h: Seq<char>) -> Seq<char> {
    let a = trim(strip_prefix(h, "attachment;"@));
    let b = strip_prefix(a, "filename="@);
    trim(strip_suffix(strip_prefix(b, "\""@), "\""@))
}

/// The name of the fetched package: from the header, or the default.
pub open spec fn filename_of(h: Option<String>) -> Seq<char> {
    match h {
        Some(v) => disposition_name(v@),
        None => DEFAULT_FILENAME@,
    }
}

/// The library name a package file name stands for.
pub open spec fn lib_name_of(f: Seq<char>) -> Seq<char> {
    strip_suffix(strip_prefix(f, "LIB_"@), ".zip"@)
}

/// What converting `res` for `format` owes: the fetch verdict's error where it
/// fails; the body under its file name for the passthrough layout; otherwise
/// what unzipping the body under the library name owes.
pub open spec fn converted<X: Extractor + ?Sized>(
    format: Format,
    res: Response,
    x: &X,
    r: Result<CSEResult, CseError>,
) -> bool {
    &&& r matches Ok(o) ==> o.files.wf()
    &&& fetch_check(res) matches Err(e) ==> r == Err::<CSEResult, CseError>(e)
    &&& (fetch_check(res) is Ok && format.ecad == Ecad::Zip) ==> (r matches Ok(o)
        && o.output_path@ == format.output_path@
        && o.files@ == seq![(filename_of(res.content_disposition), res.body->0@)])
    &&& (fetch_check(res) is Ok && format.ecad != Ecad::Zip) ==> unzipped(
        format,
        lib_name_of(filename_of(res.content_disposition)),
        res.body->0@,
        x,
        r,
    )
}

/// A response with a failure status or another content type yields a fetch
/// error, and so no file set, whatever the format.
pub proof fn lemma_bad_response_is_fetch_error<X: Extractor + ?Sized>(
    x: &X,
    format: Format,
    res: Response,
    r: Result<CSEResult, CseError>,
)
    requires
        converted(format, res, x, r),
        !is_success(res.status) || !(res.content_type matches Some(c) && c@ == CONTENT_TYPE_ZIP@),
    ensures
        r matches Err(e) && (e is Status || e is ContentType),
        !is_success(res.status) ==> r == Err::<CSEResult, CseError>(CseError::Status(res.status)),
{
}

/// The passthrough format yields exactly one file, named as the response
/// names the package and holding the whole body.
pub proof fn lemma_passthrough_single_entry<X: Extractor + ?Sized>(
    x: &X,
    format: Format,
    res: Response,
    r: Result<CSEResult, CseError>,
)
    requires
        converted(format, res, x, r),
        fetch_check(res) is Ok,
        format.ecad == Ecad::Zip,
    ensures
        r matches Ok(o) && o.files@.len() == 1 && o.files@[0].0 == filename_of(
            res.content_disposition,
        ) && o.files@[0].1 == res.body->0@,
{
}

/// The views of the files an extractor yields.
pub open spec fn output_views(v: Seq<(String, Vec<u8>)>) -> Seq<(Seq<char>, Seq<u8>)> {
    v.map_values(|e: (String, Vec<u8>)| (e.0@, e.1@))
}

/// `s` with the entries of `v` added in order, or the first name of `v`
/// that is already taken by then.
pub open spec fn add_all(s: Seq<(Seq<char>, Seq<u8>)>, v: Seq<(Seq<char>, Seq<u8>)>) -> Result<
    Seq<(Seq<char>, Seq<u8>)>,
    Seq<char>,
>
    decreases v.len(),
{
    if v.len() == 0 {
        Ok(s)
    } else {
        match add_all(s, v.drop_last()) {
            Ok(t) => if has_name(t, v.last().0) {
                Err(v.last().0)
            } else {
                Ok(t.push(v.last()))
            },
            Err(n) => Err(n),
        }
    }
}

/// Adds what an extractor yielded for one entry. A refusal becomes an
/// extraction error and adds nothing; otherwise the files are added in order,
/// and a name already taken is a collision.
pub fn absorb(files: &mut Files, outcome: Result<Vec<(String, Vec<u8>)>, String>) -> (r: Result<
    (),
    CseError,
>)
    requires
        old(files).wf(),
    ensures
        final(files).wf(),
        outcome matches Err(m) ==> r == Err::<(), CseError>(CseError::Extraction(m))
            && final(files)@ == old(files)@,
        outcome matches Ok(v) ==> match add_all(old(files)@, output_views(v@)) {
            Ok(t) => r is Ok && final(files)@ == t,
            Err(n) => r matches Err(e) && reports(Fault::Collision(n), e),
        },
{
    let mut produced = match outcome {
        Ok(v) => v,
        Err(m) => return Err(CseError::Extraction(m)),
    };
    let ghost all = output_views(produced@);
    let ghost start = files@;
    let ghost mut k: int = 0;
    assert(all.subrange(0, 0) =~= Seq::<(Seq<char>, Seq<u8>)>::empty());
    while produced.len() > 0
        invariant
            files.wf(),
            outcome matches Ok(v) && output_views(v@) == all,
            start == old(files)@,
            0 <= k <= all.len(),
            output_views(produced@) == all.subrange(k, all.len() as int),
            add_all(start, all.subrange(0, k)) == Ok::<Seq<(Seq<char>, Seq<u8>)>, Seq<char>>(files@),
        decreases produced@.len(),
    {
        assert(output_views(produced@).len() == produced@.len());
        assert(all.subrange(k, all.len() as int).len() == all.len() - k);
        assert(k < all.len());
        assert(all.subrange(0, k + 1).drop_last() =~= all.subrange(0, k));
        assert(output_views(produced@)[0] == all[k]);
        let ghost pv = produced@;
        let (out_name, out_data) = produced.remove(0);
        assert(produced@ =~= pv.subrange(1, pv.len() as int));
        assert forall|i: int| 0 <= i < produced@.len() implies #[trigger] output_views(produced@)[i]
            == all[k + 1 + i] by {
            assert(produced@[i] == pv[i + 1]);
            assert(output_views(pv)[i + 1] == all.subrange(k, all.len() as int)[i + 1]);
        }
        assert(output_views(produced@) =~= all.subrange(k + 1, all.len() as int));
        let shown = out_name.clone();
        if !files.insert(out_name, out_data) {
            assert(shown@ == all[k].0);
            assert(add_all(start, all.subrange(0, k + 1)) == Err::<Seq<(Seq<char>, Seq<u8>)>, Seq<char>>(all[k].0));
            proof {
                lemma_add_all_stays_err(start, all, k + 1, all.len() as int);
            }
            assert(all.subrange(0, all.len() as int) =~= all);
            return Err(CseError::Collision(shown));
        }
        proof {
            k = k + 1;
        }
    }
    assert(all.subrange(0, k) =~= all);
    Ok(())
}

proof fn lemma_add_all_stays_err(
    s: Seq<(Seq<char>, Seq<u8>)>,
    all: Seq<(Seq<char>, Seq<u8>)>,
    i: int,
    j: int,
)
    requires
        0 <= i <= j <= all.len(),
        add_all(s, all.subrange(0, i)) is Err,
    ensures
        add_all(s, all.subrange(0, j)) == add_all(s, all.subrange(0, i)),
    decreases j - i,
{
    if j > i {
        lemma_add_all_stays_err(s, all, i, j - 1);
        assert(all.subrange(0, j).drop_last() =~= all.subrange(0, j - 1));
    }
}

/// The first entry that the extractor refuses ends the dispatch of an
/// archive with that refusal, whatever entries follow it.
pub proof fn lemma_first_refusal_aborts<X: Extractor + ?Sized>(
    x: &X,
    ecad: Ecad,
    es: Seq<(Seq<char>, Option<Seq<u8>>)>,
    k: int,
    d: Seq<u8>,
    m: Seq<char>,
)
    requires
        0 <= k < es.len(),
        dispatched(x, ecad, es.subrange(0, k)) is Ok,
        es[k].1 == Some(d),
        x.outcome(ecad, es[k].0, d) == Err::<Seq<(Seq<char>, Seq<u8>)>, Seq<char>>(m),
    ensures
        dispatched(x, ecad, es) == Err::<Seq<(Seq<char>, Seq<u8>)>, Fault>(Fault::Extraction(m)),
{
    assert(es.subrange(0, k + 1).drop_last() =~= es.subrange(0, k));
    assert(es.subrange(0, k + 1).last() == es[k]);
    lemma_dispatch_stays_err(x, ecad, es, k + 1, es.len() as int);
    assert(es.subrange(0, es.len() as int) =~= es);
}

proof fn lemma_dispatch_stays_err<X: Extractor + ?Sized>(
    x: &X,
    ecad: Ecad,
    es: Seq<(Seq<char>, Option<Seq<u8>>)>,
    i: int,
    j: int,
)
    requires
        0 <= i <= j <= es.len(),
        dispatched(x, ecad, es.subrange(0, i)) is Err,
    ensures
        dispatched(x, ecad, es.subrange(0, j)) == dispatched(x, ecad, es.subrange(0, i)),
    decreases j - i,
{
    if j > i {
        lemma_dispatch_stays_err(x, ecad, es, i, j - 1);
        assert(es.subrange(0, j).drop_last() =~= es.subrange(0, j - 1));
    }
}

/// The package file name that a `content-disposition` header gives.
pub fn filename(disposition: &Option<String>) -> (r: String)
    ensures
        r@ == filename_of(*disposition),
{
    match disposition {
        Some(v) => {
            let a = without_prefix(v.as_str(), "attachment;");
            let a = trimmed(a.as_str());
            let b = without_prefix(a.as_str(), "filename=");
            let c = without_prefix(b.as_str(), "\"");
            let c = without_suffix(c.as_str(), "\"");
            trimmed(c.as_str())
        },
        None => String::from_str(DEFAULT_FILENAME),
    }
}

/// The library name for a package file: without a leading `LIB_` and a
/// trailing `.zip`.
pub fn lib_name(filename: &str) -> (r: String)
    ensures
        r@ == lib_name_of(filename@),
{
    let a = without_prefix(filename, "LIB_");
    without_suffix(a.as_str(), ".zip")
}

/// Checks a response's status, content type and body, in that order.
pub fn check(res: &Response) -> (r: Result<(), CseError>)
    ensures
        r == fetch_check(*res),
{
    if !(200 <= res.status && res.status <= 299) {
        return Err(CseError::Status(res.status));
    }
    match &res.content_type {
        Some(c) => {
            let expected = String::from_str(CONTENT_TYPE_ZIP);
            if !(*c == expected) {
                return Err(CseError::ContentType);
            }
        },
        None => {
            return Err(CseError::ContentType);
        },
    }
    if res.body.is_none() {
        return Err(CseError::BodyCopy);
    }
    Ok(())
}

/// The fetch-convert pipeline: the encoded credential and the formats to
/// produce.
pub struct CSE {
    pub auth: String,
    pub formats: Vec<Format>,
}

impl CSE {
    /// A pipeline for the given profile token and formats.
    pub fn new(token: &str, formats: Vec<Format>) -> (r: CSE)
        ensures
            r.auth@ == base64_of(token@),
            r.formats@ == formats@,
    {
        CSE { auth: to_base64(token), formats }
    }

    /// The address a descriptor's package is fetched from.
    pub fn url(&self, epw: &Epw) -> (r: String)
        ensures
            r@ == COMPONENT_SEARCH_ENGINE_URL@ + epw.id@,
    {
        String::from_str(COMPONENT_SEARCH_ENGINE_URL).concat(epw.id.as_str())
    }

    /// The value of the `Authorization` header.
    pub fn authorization(&self) -> (r: String)
        ensures
            r@ == AUTH_SCHEME@ + self.auth@,
    {
        String::from_str(AUTH_SCHEME).concat(self.auth.as_str())
    }

    /// One outcome per configured format, in their order, for the response
    /// fetched for a descriptor.
    pub fn get<X: Extractor + ?Sized>(&self, res: &Response, x: &X) -> (r: Vec<Result<CSEResult, CseError>>)
        ensures
            r@.len() == self.formats@.len(),
            forall|i: int| 0 <= i < r@.len() ==> converted(self.formats@[i], *res, x, #[trigger] r@[i]),
    {
        let mut out: Vec<Result<CSEResult, CseError>> = Vec::new();
        let mut i: usize = 0;
        while i < self.formats.len()
            invariant
                i <= self.formats@.len(),
                out@.len() == i,
                forall|k: int| 0 <= k < i ==> converted(self.formats@[k], *res, x, #[trigger] out@[k]),
            decreases self.formats@.len() - i,
        {
            let one = CSE::convert(&self.formats[i], res, x);
            out.push(one);
            i = i + 1;
        }
        out
    }

    /// Converts a fetched response for one format.
    pub fn convert<X: Extractor + ?Sized>(format: &Format, res: &Response, x: &X) -> (r: Result<
        CSEResult,
        CseError,
    >)
        ensures
            converted(*format, *res, x, r),
    {
        match check(res) {
            Err(e) => return Err(e),
            Ok(()) => {},
        }
        let name = filename(&res.content_disposition);
        let body = match &res.body {
            Some(b) => b.clone(),
            None => return Err(CseError::BodyCopy),
        };
        assert(body@ == res.body->0@);
        if format.ecad == Ecad::Zip {
            let mut files = Files::new();
            let ghost entry = (name@, body@);
            let inserted = files.insert(name, body);
            assert(inserted);
            assert(files@ =~= seq![entry]);
            Ok(CSEResult { output_path: format.output_path.clone(), files })
        } else {
            let lib = lib_name(name.as_str());
            CSE::unzip(format, &lib, body, x)
        }
    }

    /// Reads `data` as a zip archive and hands each entry, in order, to the
    /// extractor for the format's layout, collecting what it yields under the
    /// format's directory joined with `lib_name`. The first failure ends the
    /// run and nothing collected is kept.
    pub fn unzip<X: Extractor + ?Sized>(format: &Format, lib_name: &String, data: Vec<u8>, x: &X) -> (r:
        Result<CSEResult, CseError>)
        ensures
            unzipped(*format, lib_name@, data@, x, r),
    {
        if format.ecad == Ecad::Zip {
            return Err(CseError::Internal);
        }
        let ghost bytes = data@;
        let mut archive = match open_archive(data) {
            Ok(a) => a,
            Err(_) => return Err(CseError::Archive),
        };
        let ghost es = archive_entries(archive);
        let n = entry_count(&archive);
        let mut files = Files::new();
        let mut i: usize = 0;
        assert(es.subrange(0, 0) =~= Seq::<(Seq<char>, Option<Seq<u8>>)>::empty());
        while i < n
            invariant
                files.wf(),
                format.ecad != Ecad::Zip,
                bytes == data@,
                zip_entries(bytes) == Some(es),
                archive_entries(archive) == es,
                n == es.len(),
                i <= n,
                dispatched(x, format.ecad, es.subrange(0, i as int)) == Ok::<
                    Seq<(Seq<char>, Seq<u8>)>,
                    Fault,
                >(files@),
            decreases n - i,
        {
            let ghost acc = files@;
            assert(es.subrange(0, i + 1).drop_last() =~= es.subrange(0, i as int));
            assert(es.subrange(0, i + 1).last() == es[i as int]);
            assert(es.subrange(0, n as int) =~= es);
            let name = entry_name(&archive, i).unwrap();
            let content = match entry_data(&mut archive, i) {
                Ok(d) => d,
                Err(_) => {
                    proof {
                        assert(es[i as int].1 is None);
                        assert(dispatched(x, format.ecad, es.subrange(0, i + 1)) == Err::<
                            Seq<(Seq<char>, Seq<u8>)>,
                            Fault,
                        >(Fault::Archive));
                        lemma_dispatch_stays_err(x, format.ecad, es, i + 1, n as int);
                        assert(dispatched(x, format.ecad, es) == Err::<
                            Seq<(Seq<char>, Seq<u8>)>,
                            Fault,
                        >(Fault::Archive));
                        assert(zip_entries(bytes) == Some(es));
                    }
                    return Err(CseError::Archive);
                },
            };
            assert(es[i as int].1 == Some(content@));
            assert(es[i as int].0 == name@);
            let outcome = x.extract(format.ecad, &name, &content);
            match absorb(&mut files, outcome) {
                Ok(()) => {},
                Err(e) => {
                    proof {
                        assert(dispatched(x, format.ecad, es.subrange(0, i + 1)) is Err);
                        lemma_dispatch_stays_err(x, format.ecad, es, i + 1, n as int);
                    }
                    return Err(e);
                },
            }
            i = i + 1;
        }
        assert(es.subrange(0, n as int) =~= es);
        let output_path = join(format.output_path.as_str(), lib_name.as_str());
        Ok(CSEResult { output_path, files })
    }
}

} // verus!
