//! Where the files of an input directory go in the output directory.
use vstd::prelude::*;
use crate::BlogError;
use crate::text::chars_of;
use crate::text::same_chars;

verus! {

/// The one markdown file an entry directory may hold.
pub const CONTENT_FILE: &'static str = "content.md";

/// What an entry's markdown file becomes in the output.
pub const PAGE_FILE: &'static str = "index.html";

/// The name a file of an entry directory gets in the output, given its
/// name and extension: the markdown file, which must be `content.md`,
/// becomes `index.html`; any other file keeps its name.
pub open spec fn output_name(file_name: Seq<char>, extension: Seq<char>) -> Result<
    Seq<char>,
    (),
> {
    if extension == "md"@ {
        if file_name == CONTENT_FILE@ {
            Ok(PAGE_FILE@)
        } else {
            Err(())
        }
    } else {
        Ok(file_name)
    }
}

/// The output name of the file `file_name` with extension `extension` in an
/// entry directory; a markdown file not named `content.md` is refused with
/// `MisnamedMarkdown`.
pub fn output_file_name(file_name: &str, extension: &str) -> (r: Result<String, BlogError>)
    ensures
        match output_name(file_name@, extension@) {
            Ok(n) => r matches Ok(s) && s@ == n,
            Err(_) => r matches Err(BlogError::MisnamedMarkdown),
        },
{
    if same_chars(&chars_of(extension), &chars_of("md")) {
        if same_chars(&chars_of(file_name), &chars_of(CONTENT_FILE)) {
            Ok(PAGE_FILE.to_owned())
        } else {
            Err(BlogError::MisnamedMarkdown)
        }
    } else {
        Ok(file_name.to_owned())
    }
}

/// Whether an entry of the input directory with stem `stem` is refused:
/// `index.*` is reserved for the list page.
pub fn is_reserved_stem(stem: &str) -> (r: bool)
    ensures
        r == (stem@ == "index"@),
{
    same_chars(&chars_of(stem), &chars_of("index"))
}

} // verus!
