//! Handler suggestions for a path: its (folded) extension and the
//! programs commonly opening it.
use vstd::prelude::*;

use crate::categorize::ext_of;
use crate::outside::lower_of;

verus! {

/// A path's extension with its suggested handlers.
pub struct FileInfo {
    pub extension: String,
    pub suggested_programs: Vec<String>,
}

/// The handler table, keyed by the folded extension.
pub open spec fn suggested_for(e: Seq<char>) -> Seq<Seq<char>> {
    if e == "py"@ {
        seq!["notepad++.exe"@, "code.exe"@, "pycharm64.exe"@, "notepad.exe"@]
    } else if e == "java"@ {
        seq!["notepad++.exe"@, "code.exe"@, "idea64.exe"@, "notepad.exe"@]
    } else if e == "js"@ || e == "ts"@ || e == "jsx"@ || e == "tsx"@ {
        seq!["code.exe"@, "notepad++.exe"@, "webstorm64.exe"@, "notepad.exe"@]
    } else if e == "txt"@ || e == "md"@ || e == "log"@ {
        seq!["notepad++.exe"@, "notepad.exe"@, "code.exe"@]
    } else if e == "json"@ || e == "xml"@ || e == "yaml"@ || e == "yml"@ {
        seq!["notepad++.exe"@, "code.exe"@, "notepad.exe"@]
    } else if e == "html"@ || e == "css"@ {
        seq!["code.exe"@, "notepad++.exe"@, "chrome.exe"@, "notepad.exe"@]
    } else if e == "pdf"@ {
        seq!["AcroRd32.exe"@, "chrome.exe"@, "msedge.exe"@]
    } else if e == "jpg"@ || e == "jpeg"@ || e == "png"@ || e == "gif"@ || e == "bmp"@ {
        seq!["mspaint.exe"@, "PhotosApp.exe"@, "chrome.exe"@]
    } else if e == "mp4"@ || e == "avi"@ || e == "mkv"@ {
        seq!["vlc.exe"@, "wmplayer.exe"@]
    } else if e == "mp3"@ || e == "wav"@ || e == "flac"@ {
        seq!["vlc.exe"@, "wmplayer.exe"@]
    } else if e == "zip"@ || e == "rar"@ || e == "7z"@ {
        seq!["7zFM.exe"@, "WinRAR.exe"@]
    } else if e == "doc"@ || e == "docx"@ {
        seq!["WINWORD.EXE"@, "notepad.exe"@]
    } else if e == "xls"@ || e == "xlsx"@ {
        seq!["EXCEL.EXE"@, "notepad.exe"@]
    } else if e == "ppt"@ || e == "pptx"@ {
        seq!["POWERPNT.EXE"@]
    } else {
        seq!["notepad.exe"@, "code.exe"@, "notepad++.exe"@]
    }
}

/// The path's folded extension and the programs suggested for it.
pub fn get_file_info(path: &str) -> (r: FileInfo)
    ensures
        r.extension@ == lower_of(ext_of(path@)),
        r.suggested_programs.deep_view() == suggested_for(lower_of(ext_of(path@))),
{
    let ext_chars = crate::categorize::path_extension(path);
    let ext_string = crate::strutil::string_of(&ext_chars);
    let extension = crate::outside::to_lowercase(ext_string.as_str());
    let e = crate::strutil::chars_of(extension.as_str());
    let mut programs: Vec<String> = Vec::new();
    if is(&e, "py") {
        suggest(&mut programs, "notepad++.exe");
        suggest(&mut programs, "code.exe");
        suggest(&mut programs, "pycharm64.exe");
        suggest(&mut programs, "notepad.exe");
    } else if is(&e, "java") {
        suggest(&mut programs, "notepad++.exe");
        suggest(&mut programs, "code.exe");
        suggest(&mut programs, "idea64.exe");
        suggest(&mut programs, "notepad.exe");
    } else if is(&e, "js") || is(&e, "ts") || is(&e, "jsx") || is(&e, "tsx") {
        suggest(&mut programs, "code.exe");
        suggest(&mut programs, "notepad++.exe");
        suggest(&mut programs, "webstorm64.exe");
        suggest(&mut programs, "notepad.exe");
    } else if is(&e, "txt") || is(&e, "md") || is(&e, "log") {
        suggest(&mut programs, "notepad++.exe");
        suggest(&mut programs, "notepad.exe");
        suggest(&mut programs, "code.exe");
    } else if is(&e, "json") || is(&e, "xml") || is(&e, "yaml") || is(&e, "yml") {
        suggest(&mut programs, "notepad++.exe");
        suggest(&mut programs, "code.exe");
        suggest(&mut programs, "notepad.exe");
    } else if is(&e, "html") || is(&e, "css") {
        suggest(&mut programs, "code.exe");
        suggest(&mut programs, "notepad++.exe");
        suggest(&mut programs, "chrome.exe");
        suggest(&mut programs, "notepad.exe");
    } else if is(&e, "pdf") {
        suggest(&mut programs, "AcroRd32.exe");
        suggest(&mut programs, "chrome.exe");
        suggest(&mut programs, "msedge.exe");
    } else if is(&e, "jpg") || is(&e, "jpeg") || is(&e, "png") || is(&e, "gif") || is(&e, "bmp") {
        suggest(&mut programs, "mspaint.exe");
        suggest(&mut programs, "PhotosApp.exe");
        suggest(&mut programs, "chrome.exe");
    } else if is(&e, "mp4") || is(&e, "avi") || is(&e, "mkv") {
        suggest(&mut programs, "vlc.exe");
        suggest(&mut programs, "wmplayer.exe");
    } else if is(&e, "mp3") || is(&e, "wav") || is(&e, "flac") {
        suggest(&mut programs, "vlc.exe");
        suggest(&mut programs, "wmplayer.exe");
    } else if is(&e, "zip") || is(&e, "rar") || is(&e, "7z") {
        suggest(&mut programs, "7zFM.exe");
        suggest(&mut programs, "WinRAR.exe");
    } else if is(&e, "doc") || is(&e, "docx") {
        suggest(&mut programs, "WINWORD.EXE");
        suggest(&mut programs, "notepad.exe");
    } else if is(&e, "xls") || is(&e, "xlsx") {
        suggest(&mut programs, "EXCEL.EXE");
        suggest(&mut programs, "notepad.exe");
    } else if is(&e, "ppt") || is(&e, "pptx") {
        suggest(&mut programs, "POWERPNT.EXE");
    } else {
        suggest(&mut programs, "notepad.exe");
        suggest(&mut programs, "code.exe");
        suggest(&mut programs, "notepad++.exe");
    }
    proof {
        assert(programs.deep_view() =~= suggested_for(lower_of(ext_of(path@))));
    }
    FileInfo { extension, suggested_programs: programs }
}

/// Whether the folded extension spells the literal.
fn is(e: &Vec<char>, lit: &str) -> (b: bool)
    ensures
        b == (e@ == lit@),
{
    let l = crate::strutil::chars_of(lit);
    crate::strutil::eq_chars(e, &l)
}

/// Appends one suggested handler.
fn suggest(v: &mut Vec<String>, s: &str)
    ensures
        final(v).deep_view() == old(v).deep_view().push(s@),
{
    let ghost old_kv = v@;
    let ghost old_kdv = v.deep_view();
    v.push(String::from_str(s));
    proof {
        crate::strutil::lemma_deep_view_push_str(old_kv, old_kdv, v@, v.deep_view(), s@);
    }
}

} // verus!
