//! The conversion entry points and the aggregator: one file's text to its
//! value tree, a folder's files to a category/language document, and a set
//! of named sub-folders to the combined localization document.
//!
//! The aggregator works on plain values: the caller reads the directory,
//! strips any byte-order mark, and hands file names and contents over in
//! directory-iteration order. A folder fails as a whole on the first file
//! without the recognized extension or the first file that cannot be
//! converted; nothing partial is returned.

use crate::builder::build_tree;
use crate::builder::build_upto;
use crate::builder::classify_all;
use crate::builder::finalize;
use crate::builder::quote_wrap;
use crate::builder::quote_wrap_exec;
use crate::builder::BuildV;
use crate::preprocess::preprocess_lines;
use crate::preprocess::preprocess_text;
use crate::repair::repair_exec;
use crate::repair::repair_value;
use crate::text::split_lines;
use crate::text::unsplit_lines;
use crate::tokens::category_key;
use crate::tokens::category_key_exec;
use crate::tokens::eq_bytes;
use crate::tokens::folders_key;
use crate::tokens::folders_key_exec;
use crate::tokens::languages_key;
use crate::tokens::languages_key_exec;
use crate::tokens::localization_name;
use crate::tokens::localization_name_exec;
use crate::tokens::txt_extension;
use crate::tokens::txt_extension_exec;
use crate::value::items_view;
use crate::value::json_of;
use crate::value::lemma_items_view_len;
use crate::value::to_json;
use crate::value::value_view;
use crate::value::Entry;
use crate::value::EntryV;
use crate::value::JsonV;
use crate::value::Value;
use vstd::prelude::*;

verus! {

/// Why a conversion failed.
#[derive(PartialEq, Eq, Structural, Clone, Copy, Debug)]
pub enum ConvError {
    /// Folder mode met a file without the recognized extension.
    UnexpectedFileType,
    /// Sub-folder mode was invoked on a parent not named as the
    /// localization root.
    InvalidSubFolderRoot,
    /// The tree builder could not close all open frames by end of input,
    /// or closed more than were open.
    UnbalancedNesting,
}

/// One input file: its bare name and its decoded content.
pub struct InputFile {
    pub name: Vec<u8>,
    pub content: Vec<u8>,
}

/// The mathematical form of an input file.
pub struct InputFileV {
    pub name: Seq<u8>,
    pub content: Seq<u8>,
}

impl View for InputFile {
    type V = InputFileV;

    open spec fn view(&self) -> InputFileV {
        InputFileV { name: self.name@, content: self.content@ }
    }
}

/// One named sub-folder and its files, in directory-iteration order.
pub struct SubFolder {
    pub name: Vec<u8>,
    pub files: Vec<InputFile>,
}

/// The mathematical form of a sub-folder.
pub struct SubFolderV {
    pub name: Seq<u8>,
    pub files: Seq<InputFileV>,
}

/// The views of a list of input files.
pub open spec fn files_view(fs: Seq<InputFile>) -> Seq<InputFileV> {
    Seq::new(fs.len(), |i: int| fs[i]@)
}

impl View for SubFolder {
    type V = SubFolderV;

    open spec fn view(&self) -> SubFolderV {
        SubFolderV { name: self.name@, files: files_view(self.files@) }
    }
}

/// The views of a list of sub-folders.
pub open spec fn subs_view(ss: Seq<SubFolder>) -> Seq<SubFolderV> {
    Seq::new(ss.len(), |i: int| ss[i]@)
}

/// The preprocessed lines of a file's text.
pub open spec fn conv_lines(text: Seq<u8>) -> Seq<Seq<u8>> {
    preprocess_lines(split_lines(text))
}

/// The builder's final state over a file's classified lines.
pub open spec fn conv_state(text: Seq<u8>) -> BuildV {
    let cls = classify_all(conv_lines(text));
    build_upto(cls, cls.len() as int)
}

/// The conversion of one file's text: its repaired value tree, `None` when
/// the file saw no topic headers and the empty-file policy drops it, or
/// the structural error.
pub open spec fn spec_convert(text: Seq<u8>, keep_empty: bool) -> Result<Option<JsonV>, ConvError> {
    let st = conv_state(text);
    match finalize(st) {
        Result::Err(_) => Result::Err(ConvError::UnbalancedNesting),
        Result::Ok(v) => if st.topics_seen == 0 && !keep_empty {
            Result::Ok(Option::None)
        } else {
            Result::Ok(Option::Some(repair_value(v)))
        },
    }
}

/// Converts one file's text into its value tree, applying the empty-file
/// policy: a file with no topic headers is dropped unless empties are
/// kept.
pub fn convert_text(text: &[u8], keep_empty: bool) -> (r: Result<Option<Value>, ConvError>)
    ensures
        (r is Ok) <==> (spec_convert(text@, keep_empty) is Ok),
        (r matches Ok(Some(v)) ==> spec_convert(text@, keep_empty) matches Ok(Some(w))
            && value_view(v) == w),
        (r matches Ok(None) ==> spec_convert(text@, keep_empty) == Result::<
            Option<JsonV>,
            ConvError,
        >::Ok(Option::None)),
        (r matches Err(e) ==> spec_convert(text@, keep_empty) == Result::<
            Option<JsonV>,
            ConvError,
        >::Err(e)),
{
    let lines = preprocess_text(text);
    match build_tree(&lines) {
        Result::Err(_) => Result::Err(ConvError::UnbalancedNesting),
        Result::Ok((v, topics)) => {
            if topics == 0 && !keep_empty {
                Result::Ok(Option::None)
            } else {
                let repaired = repair_exec(&v);
                Result::Ok(Option::Some(repaired))
            }
        },
    }
}

/// A file name bearing the recognized localization extension.
pub open spec fn has_txt_ext(name: Seq<u8>) -> bool {
    name.len() > 4 && name.subrange(name.len() - 4, name.len() as int) == txt_extension()
}

/// Tests a file name for the recognized extension.
pub fn has_txt_ext_exec(name: &[u8]) -> (r: bool)
    ensures
        r == has_txt_ext(name@),
{
    let n = name.len();
    if n <= 4 {
        return false;
    }
    let tail = crate::text::copy_range(name, n - 4, n);
    let ext = txt_extension_exec();
    eq_bytes(tail.as_slice(), ext.as_slice())
}

/// The language values of the first `n` files of a folder, in order: each
/// file must bear the recognized extension and convert; dropped empty
/// files contribute nothing; the first failure fails the whole folder.
pub open spec fn langs_upto(files: Seq<InputFileV>, n: int, keep_empty: bool) -> Result<
    Seq<JsonV>,
    ConvError,
>
    decreases n,
{
    if n <= 0 || n > files.len() {
        Result::Ok(Seq::empty())
    } else {
        match langs_upto(files, n - 1, keep_empty) {
            Result::Err(e) => Result::Err(e),
            Result::Ok(acc) => if !has_txt_ext(files[n - 1].name) {
                Result::Err(ConvError::UnexpectedFileType)
            } else {
                match spec_convert(files[n - 1].content, keep_empty) {
                    Result::Err(e) => Result::Err(e),
                    Result::Ok(Option::None) => Result::Ok(acc),
                    Result::Ok(Option::Some(v)) => Result::Ok(acc.push(v)),
                }
            },
        }
    }
}

/// A folder failure at some prefix decides the whole folder.
proof fn lemma_langs_err_propagates(
    files: Seq<InputFileV>,
    keep_empty: bool,
    k: int,
    m: int,
)
    requires
        0 <= k <= m <= files.len(),
        langs_upto(files, k, keep_empty) is Err,
    ensures
        langs_upto(files, m, keep_empty) == langs_upto(files, k, keep_empty),
    decreases m - k,
{
    if m > k {
        lemma_langs_err_propagates(files, keep_empty, k, m - 1);
    }
}

/// A folder's aggregate document: its own name under `category`, and the
/// kept per-file values under `languages`, in directory-iteration order.
pub open spec fn folder_doc(folder_name: Seq<u8>, langs: Seq<JsonV>) -> JsonV {
    JsonV::ObjV(
        seq![
            EntryV { key: category_key(), val: JsonV::StrV(quote_wrap(folder_name)) },
            EntryV { key: languages_key(), val: JsonV::ArrV(langs) },
        ],
    )
}

/// Builds a folder's aggregate document as a value tree.
#[verifier::loop_isolation(false)]
#[verifier::rlimit(50)]
fn folder_value(folder_name: &[u8], files: &Vec<InputFile>, keep_empty: bool) -> (r: Result<
    Value,
    ConvError,
>)
    ensures
        ({
            let lr = langs_upto(files_view(files@), files@.len() as int, keep_empty);
            &&& ((r is Ok) <==> (lr is Ok))
            &&& (r matches Ok(v) ==> value_view(v) == folder_doc(folder_name@, lr->Ok_0))
            &&& (r matches Err(e) ==> lr == Result::<Seq<JsonV>, ConvError>::Err(e))
        }),
{
    let ghost fsv = files_view(files@);
    let n = files.len();
    let mut langs: Vec<Value> = Vec::new();
    let mut i: usize = 0;
    while i < n
        invariant
            0 <= i <= n == files@.len(),
            langs_upto(fsv, i as int, keep_empty) == Result::<Seq<JsonV>, ConvError>::Ok(
                items_view(langs@, 0),
            ),
        decreases n - i,
    {
        let f = &files[i];
        if !has_txt_ext_exec(f.name.as_slice()) {
            proof {
                assert(langs_upto(fsv, i + 1, keep_empty) == Result::<
                    Seq<JsonV>,
                    ConvError,
                >::Err(ConvError::UnexpectedFileType));
                lemma_langs_err_propagates(fsv, keep_empty, i + 1, n as int);
            }
            return Result::Err(ConvError::UnexpectedFileType);
        }
        match convert_text(f.content.as_slice(), keep_empty) {
            Result::Err(e) => {
                proof {
                    assert(langs_upto(fsv, i + 1, keep_empty) == Result::<
                        Seq<JsonV>,
                        ConvError,
                    >::Err(e));
                    lemma_langs_err_propagates(fsv, keep_empty, i + 1, n as int);
                }
                return Result::Err(e);
            },
            Result::Ok(Option::None) => {},
            Result::Ok(Option::Some(v)) => {
                let ghost vv = value_view(v);
                let ghost langs0 = langs@;
                langs.push(v);
                proof {
                    assert(langs@ =~= langs0.push(langs@.last()));
                    lemma_items_view_len(langs0, 0);
                    lemma_items_view_len(langs@, 0);
                    assert(forall|j: int| 0 <= j < langs0.len() ==> langs@[j] == langs0[j]);
                    assert(items_view(langs@, 0) =~= items_view(langs0, 0).push(vv));
                }
            },
        }
        i = i + 1;
    }
    let mut cat = crate::text::copy_range(folder_name, 0, folder_name.len());
    proof {
        assert(cat@ =~= folder_name@);
    }
    let cat_lit = quote_wrap_exec(cat);
    let ghost cat_litv = cat_lit@;
    let ghost langsv = items_view(langs@, 0);
    let mut entries: Vec<Entry> = Vec::new();
    entries.push(Entry { key: category_key_exec(), val: Value::Str(cat_lit) });
    entries.push(Entry { key: languages_key_exec(), val: Value::Arr(langs) });
    proof {
        crate::value::lemma_entries_view_len(entries@, 0);
        assert(entries@[0]@ == (EntryV { key: category_key(), val: JsonV::StrV(cat_litv) }));
        assert(entries@[1]@ == (EntryV { key: languages_key(), val: JsonV::ArrV(langsv) }));
        assert(crate::value::entries_view(entries@, 0) =~= seq![
            EntryV { key: category_key(), val: JsonV::StrV(cat_litv) },
            EntryV { key: languages_key(), val: JsonV::ArrV(langsv) },
        ]);
    }
    let doc = Value::Obj(entries);
    proof {
        assert(value_view(doc) == folder_doc(folder_name@, langsv));
        assert(langsv == langs_upto(fsv, n as int, keep_empty)->Ok_0);
    }
    Result::Ok(doc)
}

/// The serialized aggregate of one folder, or why it failed as a whole.
pub open spec fn spec_process_folder(
    folder_name: Seq<u8>,
    files: Seq<InputFileV>,
    keep_empty: bool,
) -> Result<Seq<u8>, ConvError> {
    match langs_upto(files, files.len() as int, keep_empty) {
        Result::Err(e) => Result::Err(e),
        Result::Ok(langs) => Result::Ok(json_of(folder_doc(folder_name, langs))),
    }
}

/// Converts a whole folder: every file must bear the recognized extension
/// and convert, else the folder fails with no partial output; the result
/// wraps the kept values in order under the folder's own name.
pub fn process_folder(folder_name: &[u8], files: &Vec<InputFile>, keep_empty: bool) -> (r: Result<
    Vec<u8>,
    ConvError,
>)
    ensures
        ({
            let sr = spec_process_folder(folder_name@, files_view(files@), keep_empty);
            &&& ((r is Ok) <==> (sr is Ok))
            &&& (r matches Ok(t) ==> t@ == sr->Ok_0)
            &&& (r matches Err(e) ==> sr == Result::<Seq<u8>, ConvError>::Err(e))
        }),
{
    match folder_value(folder_name, files, keep_empty) {
        Result::Err(e) => Result::Err(e),
        Result::Ok(doc) => Result::Ok(to_json(&doc)),
    }
}


/// The `folders` array of a sub-folder document: the given names in the
/// given order, quote-wrapped.
pub open spec fn folders_items(subs: Seq<SubFolderV>, n: int) -> Seq<JsonV>
    decreases n,
{
    if n <= 0 || n > subs.len() {
        Seq::empty()
    } else {
        folders_items(subs, n - 1).push(JsonV::StrV(quote_wrap(subs[n - 1].name)))
    }
}

/// The per-sub-folder entries of the first `n` sub-folders: each maps its
/// name to its own folder aggregate; the first failing sub-folder fails
/// the whole operation.
pub open spec fn sub_entries(subs: Seq<SubFolderV>, n: int, keep_empty: bool) -> Result<
    Seq<EntryV>,
    ConvError,
>
    decreases n,
{
    if n <= 0 || n > subs.len() {
        Result::Ok(Seq::empty())
    } else {
        match sub_entries(subs, n - 1, keep_empty) {
            Result::Err(e) => Result::Err(e),
            Result::Ok(acc) => match langs_upto(
                subs[n - 1].files,
                subs[n - 1].files.len() as int,
                keep_empty,
            ) {
                Result::Err(e) => Result::Err(e),
                Result::Ok(langs) => Result::Ok(
                    acc.push(
                        EntryV {
                            key: quote_wrap(subs[n - 1].name),
                            val: folder_doc(subs[n - 1].name, langs),
                        },
                    ),
                ),
            },
        }
    }
}

/// A sub-folder failure at some prefix decides the whole operation.
proof fn lemma_sub_err_propagates(subs: Seq<SubFolderV>, keep_empty: bool, k: int, m: int)
    requires
        0 <= k <= m <= subs.len(),
        sub_entries(subs, k, keep_empty) is Err,
    ensures
        sub_entries(subs, m, keep_empty) == sub_entries(subs, k, keep_empty),
    decreases m - k,
{
    if m > k {
        lemma_sub_err_propagates(subs, keep_empty, k, m - 1);
    }
}

/// The combined document of the sub-folders: the `folders` name array
/// first, then one key per sub-folder in the given order.
pub open spec fn sub_doc(subs: Seq<SubFolderV>, entries: Seq<EntryV>) -> JsonV {
    JsonV::ObjV(
        seq![
            EntryV {
                key: folders_key(),
                val: JsonV::ArrV(folders_items(subs, subs.len() as int)),
            },
        ] + entries,
    )
}

/// The serialized sub-folder aggregate, or why it failed: the parent must
/// be the localization root, and every named sub-folder must aggregate.
pub open spec fn spec_process_sub_folders(
    parent_name: Seq<u8>,
    subs: Seq<SubFolderV>,
    keep_empty: bool,
) -> Result<Seq<u8>, ConvError> {
    if parent_name != localization_name() {
        Result::Err(ConvError::InvalidSubFolderRoot)
    } else {
        match sub_entries(subs, subs.len() as int, keep_empty) {
            Result::Err(e) => Result::Err(e),
            Result::Ok(es) => Result::Ok(json_of(sub_doc(subs, es))),
        }
    }
}

/// Converts an explicit ordered list of named sub-folders of the
/// localization root into one combined document.
#[verifier::loop_isolation(false)]
#[verifier::rlimit(50)]
pub fn process_sub_folders(parent_name: &[u8], subs: &Vec<SubFolder>, keep_empty: bool) -> (r:
    Result<Vec<u8>, ConvError>)
    requires
        1 <= subs@.len() <= 7,
    ensures
        ({
            let sr = spec_process_sub_folders(parent_name@, subs_view(subs@), keep_empty);
            &&& ((r is Ok) <==> (sr is Ok))
            &&& (r matches Ok(t) ==> t@ == sr->Ok_0)
            &&& (r matches Err(e) ==> sr == Result::<Seq<u8>, ConvError>::Err(e))
        }),
{
    let ghost ssv = subs_view(subs@);
    let loc = localization_name_exec();
    if !eq_bytes(parent_name, loc.as_slice()) {
        return Result::Err(ConvError::InvalidSubFolderRoot);
    }
    let n = subs.len();
    let mut fitems: Vec<Value> = Vec::new();
    let mut i: usize = 0;
    while i < n
        invariant
            0 <= i <= n == subs@.len(),
            items_view(fitems@, 0) =~= folders_items(ssv, i as int),
        decreases n - i,
    {
        let name = crate::text::copy_range(subs[i].name.as_slice(), 0, subs[i].name.len());
        proof {
            assert(name@ =~= ssv[i as int].name);
        }
        let lit = quote_wrap_exec(name);
        let ghost litv = lit@;
        let ghost f0 = fitems@;
        fitems.push(Value::Str(lit));
        proof {
            assert(fitems@ =~= f0.push(fitems@.last()));
            assert(value_view(fitems@.last()) == JsonV::StrV(litv));
            lemma_items_view_len(f0, 0);
            lemma_items_view_len(fitems@, 0);
            assert(forall|j: int| 0 <= j < f0.len() ==> fitems@[j] == f0[j]);
            assert(items_view(fitems@, 0) =~= folders_items(ssv, i + 1));
        }
        i = i + 1;
    }
    let mut sentries: Vec<Entry> = Vec::new();
    let mut k: usize = 0;
    while k < n
        invariant
            0 <= k <= n == subs@.len(),
            sub_entries(ssv, k as int, keep_empty) == Result::<Seq<EntryV>, ConvError>::Ok(
                crate::value::entries_view(sentries@, 0),
            ),
        decreases n - k,
    {
        let sub = &subs[k];
        match folder_value(sub.name.as_slice(), &sub.files, keep_empty) {
            Result::Err(e) => {
                proof {
                    assert(sub_entries(ssv, k + 1, keep_empty) == Result::<
                        Seq<EntryV>,
                        ConvError,
                    >::Err(e));
                    lemma_sub_err_propagates(ssv, keep_empty, k + 1, n as int);
                }
                return Result::Err(e);
            },
            Result::Ok(doc) => {
                let name = crate::text::copy_range(sub.name.as_slice(), 0, sub.name.len());
                proof {
                    assert(name@ =~= ssv[k as int].name);
                }
                let key = quote_wrap_exec(name);
                let ghost keyv = key@;
                let ghost docv = value_view(doc);
                let ghost s0 = sentries@;
                sentries.push(Entry { key, val: doc });
                proof {
                    assert(sentries@ =~= s0.push(sentries@.last()));
                    crate::value::lemma_entries_view_len(s0, 0);
                    crate::value::lemma_entries_view_len(sentries@, 0);
                    assert(forall|j: int| 0 <= j < s0.len() ==> sentries@[j] == s0[j]);
                    assert(sentries@.last()@ == (EntryV { key: keyv, val: docv }));
                    assert(crate::value::entries_view(sentries@, 0) =~= crate::value::entries_view(
                        s0,
                        0,
                    ).push(EntryV { key: keyv, val: docv }));
                    assert(crate::value::entries_view(sentries@, 0) =~= sub_entries(
                        ssv,
                        k + 1,
                        keep_empty,
                    )->Ok_0);
                }
                k = k + 1;
            },
        }
    }
    let ghost sv0 = sentries@;
    let ghost sentriesv = crate::value::entries_view(sentries@, 0);
    let ghost fitemsv = items_view(fitems@, 0);
    let mut entries: Vec<Entry> = Vec::new();
    entries.push(Entry { key: folders_key_exec(), val: Value::Arr(fitems) });
    let ghost e0 = entries@;
    entries.append(&mut sentries);
    proof {
        assert(entries@ == e0 + sv0);
        crate::value::lemma_entries_view_len(entries@, 0);
        crate::value::lemma_entries_view_len(sv0, 0);
        assert(e0[0]@ == (EntryV { key: folders_key(), val: JsonV::ArrV(fitemsv) }));
        assert(crate::value::entries_view(entries@, 0) =~= seq![
            EntryV { key: folders_key(), val: JsonV::ArrV(fitemsv) },
        ] + sentriesv) by {
            assert(forall|j: int| 1 <= j < entries@.len() ==> entries@[j] == sv0[j - 1]);
        }
    }
    let doc = Value::Obj(entries);
    proof {
        assert(value_view(doc) == sub_doc(ssv, sentriesv));
    }
    Result::Ok(to_json(&doc))
}

/// Converts one file's text to serialized JSON, keeping a topic-less file
/// as its own object; with the diagnostic escape hatch set, conversion is
/// bypassed and the preprocessed text passes through unchanged.
pub fn convert_single(text: &[u8], skip_conversion: bool) -> (r: Result<Vec<u8>, ConvError>)
    ensures
        skip_conversion ==> (r matches Ok(t) && t@ == unsplit_lines(conv_lines(text@))),
        !skip_conversion ==> ({
            &&& ((r is Ok) <==> (spec_convert(text@, true) is Ok))
            &&& (r matches Ok(t) ==> spec_convert(text@, true) matches Ok(Some(v)) && t@
                == json_of(v))
            &&& (r matches Err(e) ==> spec_convert(text@, true) == Result::<
                Option<JsonV>,
                ConvError,
            >::Err(e))
        }),
{
    if skip_conversion {
        let lines = preprocess_text(text);
        let out = crate::text::unsplit_lines_exec(&lines);
        return Result::Ok(out);
    }
    match convert_text(text, true) {
        Result::Err(e) => Result::Err(e),
        Result::Ok(Option::Some(v)) => Result::Ok(to_json(&v)),
        Result::Ok(Option::None) => {
            proof {
                assert(false);
            }
            Result::Err(ConvError::UnbalancedNesting)
        },
    }
}

/// The kept value of a file that converts successfully to one.
pub open spec fn kept_value(f: InputFileV, keep_empty: bool) -> JsonV {
    spec_convert(f.content, keep_empty)->Ok_0->Some_0
}

/// The languages of a folder whose files all convert to kept values: one
/// value per file, in directory-iteration order.
proof fn lemma_folder_order_upto(files: Seq<InputFileV>, keep_empty: bool, n: int)
    requires
        0 <= n <= files.len(),
        forall|i: int| 0 <= i < files.len() ==> has_txt_ext(#[trigger] files[i].name),
        forall|i: int|
            0 <= i < files.len() ==> spec_convert(
                #[trigger] files[i].content,
                keep_empty,
            ) matches Ok(Some(_)),
    ensures
        langs_upto(files, n, keep_empty) matches Ok(langs) && langs.len() == n && (forall|i: int|
            0 <= i < n ==> #[trigger] langs[i] == kept_value(files[i], keep_empty)),
    decreases n,
{
    if n > 0 {
        lemma_folder_order_upto(files, keep_empty, n - 1);
        assert(spec_convert(files[n - 1].content, keep_empty) matches Ok(Some(_)));
    }
}

/// Folder aggregation order: given the folder's files in their
/// directory-iteration order, all bearing the recognized extension and all
/// converting to kept values, the languages array holds exactly their
/// values in that same order, whatever the contents.
pub proof fn lemma_folder_order(files: Seq<InputFileV>, keep_empty: bool)
    requires
        forall|i: int| 0 <= i < files.len() ==> has_txt_ext(#[trigger] files[i].name),
        forall|i: int|
            0 <= i < files.len() ==> spec_convert(
                #[trigger] files[i].content,
                keep_empty,
            ) matches Ok(Some(_)),
    ensures
        langs_upto(files, files.len() as int, keep_empty) matches Ok(langs) && langs.len()
            == files.len() && (forall|i: int|
            0 <= i < files.len() ==> #[trigger] langs[i] == kept_value(files[i], keep_empty)),
{
    lemma_folder_order_upto(files, keep_empty, files.len() as int);
}

/// The empty-file policy: a file that builds, seen under the two settings.
/// With empties kept it always contributes its own (possibly topic-less)
/// object; with empties dropped it is excluded exactly when no topic
/// header was seen, and otherwise contributes the same object.
pub proof fn lemma_empty_policy(text: Seq<u8>)
    requires
        spec_convert(text, true) is Ok,
    ensures
        spec_convert(text, true) matches Ok(Some(_)),
        conv_state(text).topics_seen == 0 ==> spec_convert(text, false) == Result::<
            Option<JsonV>,
            ConvError,
        >::Ok(Option::None),
        conv_state(text).topics_seen != 0 ==> spec_convert(text, false) == spec_convert(
            text,
            true,
        ),
{
}


/// For a valid single-topic document, given as its raw lines as splitting
/// the file's text yields them: one key/value line, then a topic-header
/// comment block — dash decoration, a marker line carrying the header's
/// display text, dash decoration — then only key/value lines. After the
/// preprocessor strips the decoration, the built tree holds a key exactly
/// equal to the header's display text, quote-wrapped and verbatim, and the
/// post-build repairs never rename it: no comment or dash characters
/// survive into the key.
pub proof fn lemma_single_topic_document(ls: Seq<Seq<u8>>, name: Seq<u8>)
    requires
        ls.len() >= 4,
        crate::classify::spec_classify(ls[0]) is KeyValueL,
        crate::preprocess::is_dash_line(ls[1]),
        crate::preprocess::is_marker_line(ls[2]),
        !crate::preprocess::marker_has_dash(ls[2]),
        crate::preprocess::marker_text(ls[2]) == name,
        crate::preprocess::is_dash_line(ls[3]),
        forall|i: int|
            4 <= i < ls.len() ==> crate::classify::spec_classify(#[trigger] ls[i]) is KeyValueL,
        name.len() > 0,
        name[0] != crate::escape::SLASH,
        !crate::text::is_ws(name[0]),
        forall|i: int| 0 <= i < name.len() ==> !crate::classify::is_structural(#[trigger] name[i]),
    ensures
        ({
            let cls = classify_all(preprocess_lines(ls));
            let st = build_upto(cls, cls.len() as int);
            &&& finalize(st) is Ok
            &&& repair_value(finalize(st)->Ok_0) is ObjV
            &&& exists|j: int|
                0 <= j < repair_value(finalize(st)->Ok_0)->ObjV_0.len() && #[trigger] repair_value(
                    finalize(st)->Ok_0,
                )->ObjV_0[j].key == quote_wrap(name)
        }),
{
    let n = ls.len() as int;
    // A classified key/value line opens with a quote once trimmed; it is
    // neither decoration nor a dangling wrapped value.
    assert forall|j: int| 0 <= j < n implies !crate::preprocess::dangling_key_line(
        #[trigger] ls[j],
    ) by {
        let t = crate::text::trim_ws(ls[j]);
        if j == 0 || j >= 4 {
            assert(crate::classify::is_kv_line(t));
            assert(crate::classify::value_open(t) < t.len() - 1);
        } else {
            assert(t[0] == crate::escape::SLASH);
            assert(!crate::classify::has_key_token(t));
        }
    }
    crate::preprocess::lemma_join_identity_from(ls, 0);
    assert(crate::preprocess::join_wrapped_from(ls, 0) =~= ls);
    assert(preprocess_lines(ls) == crate::preprocess::normalize_from(ls, 0));

    // Key/value lines are never dash decoration.
    assert forall|j: int| 0 <= j < n && (j == 0 || j >= 4) implies !crate::preprocess::is_dash_line(
        #[trigger] ls[j],
    ) by {
        let t = crate::text::trim_ws(ls[j]);
        assert(t[0] == crate::escape::QUOTE);
    }
    // The normalization walks: the first line passes, the block collapses
    // to the bare header text, the rest passes.
    assert(crate::preprocess::dash_run(ls, 0) == 0);
    assert(crate::preprocess::topic_block_end(ls, 0) == -1);
    assert(!crate::preprocess::is_dash_line(ls[2]));
    assert(crate::preprocess::dash_run(ls, 2) == 0);
    assert(crate::preprocess::dash_run(ls, 1) == 1);
    assert(!crate::preprocess::is_marker_line(ls[3]));
    if 4 < n {
        assert(!crate::preprocess::is_dash_line(ls[4]));
    }
    assert(crate::preprocess::dash_run(ls, 4) == 0);
    assert(crate::preprocess::dash_run(ls, 3) == 1);
    assert(crate::preprocess::topic_block_end(ls, 1) == 4);
    assert(crate::preprocess::topic_block_text(ls, 1) == name);
    assert forall|j: int| 4 <= j < n implies !crate::preprocess::is_dash_line(
        #[trigger] ls[j],
    ) by {
        let t = crate::text::trim_ws(ls[j]);
        assert(t[0] == crate::escape::QUOTE);
    }
    crate::preprocess::lemma_normalize_tail(ls, 4);
    let pls = preprocess_lines(ls);
    assert(crate::preprocess::normalize_from(ls, 1) =~= seq![name] + ls.subrange(4, n));
    assert(crate::preprocess::normalize_from(ls, 0) =~= seq![ls[0]]
        + crate::preprocess::normalize_from(ls, 1));
    assert(pls =~= seq![ls[0], name] + ls.subrange(4, n));

    // The bare header line classifies as a topic candidate.
    crate::text::lemma_drop_leading_ws(name, 0);
    crate::text::lemma_drop_trailing_prefix(name);
    let tn = crate::text::trim_ws(name);
    assert(crate::text::drop_leading_ws(name) == name.subrange(0, name.len() as int));
    assert(name.subrange(0, name.len() as int) =~= name);
    assert(tn == crate::text::drop_trailing_ws(name));
    if tn.len() > 0 {
        assert(tn[0] == name[0]);
    }
    assert(!crate::classify::is_comment_line(name));
    assert(!crate::classify::is_kv_line(tn));
    assert(crate::classify::is_topic_line(name));
    assert(crate::classify::spec_classify(name) == crate::classify::LineV::TopicL(name));

    let cls = classify_all(pls);
    assert(cls[0] == crate::classify::spec_classify(ls[0]));
    assert(cls[1] == crate::classify::LineV::TopicL(name));
    assert forall|i: int| 2 <= i < cls.len() implies #[trigger] cls[i] is KeyValueL by {
        assert(pls[i] == ls.subrange(4, n)[i - 2]);
        assert(pls[i] == ls[i + 2]);
    }
    crate::builder::lemma_single_topic(cls, name);

    // The repair keeps every key of the root object in place.
    let st = build_upto(cls, cls.len() as int);
    let es = finalize(st)->Ok_0->ObjV_0;
    crate::repair::lemma_repair_preserves_keys(es);
    let j = choose|j: int| 0 <= j < es.len() && #[trigger] es[j].key == quote_wrap(name);
    let res = repair_value(finalize(st)->Ok_0)->ObjV_0;
    assert(res[j].key == quote_wrap(name));
}

} // verus!
