//! Variants of media files: which there are, who makes them, and where they stand.
use crate::text;
use crate::text::{same_text, starts_with};
use vstd::prelude::*;

verus! {

/// A variant of a file.
#[derive(Debug, Clone, Copy, PartialEq, Eq, Structural)]
pub enum FileVariant {
    Main,
    Feed,
    Small,
}

/// Why a text names no variant.
#[derive(Debug, Clone, Copy, PartialEq, Eq, Structural)]
pub struct InvalidVariant;

impl InvalidVariant {
    pub fn message(&self) -> (message: &'static str)
        ensures
            message@ == "Invalid file version"@,
    {
        "Invalid file version"
    }
}

impl FileVariant {
    /// How a variant is spelled.
    pub open spec fn spelled(self) -> Seq<char> {
        match self {
            FileVariant::Main => "main"@,
            FileVariant::Feed => "feed"@,
            FileVariant::Small => "small"@,
        }
    }

    /// The variant that `s` names.
    pub fn from_str(s: &str) -> (variant: Result<FileVariant, InvalidVariant>)
        ensures
            match variant {
                Ok(found) => s@ == found.spelled(),
                Err(_) => forall|other: FileVariant| s@ != #[trigger] other.spelled(),
            },
    {
        if same_text(s, "main") {
            Ok(FileVariant::Main)
        } else if same_text(s, "feed") {
            Ok(FileVariant::Feed)
        } else if same_text(s, "small") {
            Ok(FileVariant::Small)
        } else {
            assert forall|other: FileVariant| s@ != #[trigger] other.spelled() by {
                match other {
                    FileVariant::Main => {},
                    FileVariant::Feed => {},
                    FileVariant::Small => {},
                }
            }
            Err(InvalidVariant)
        }
    }

    /// The variant's name.
    pub fn name(&self) -> (name: &'static str)
        ensures
            name@ == self.spelled(),
    {
        match self {
            FileVariant::Main => "main",
            FileVariant::Feed => "feed",
            FileVariant::Small => "small",
        }
    }
}

/// A variant's name gives the variant back.
pub proof fn law_a_variant_is_told_by_its_name(a: FileVariant, b: FileVariant)
    requires
        a.spelled() == b.spelled(),
    ensures
        a == b,
{
    reveal_strlit("main");
    reveal_strlit("feed");
    reveal_strlit("small");
    assert("main"@[0] == 'm' && "feed"@[0] == 'f' && "small"@[0] == 's');
}

/// What is kept of a file.
#[derive(Debug)]
pub struct FileDetails {
    pub id: String,
    pub owner_id: String,
    pub content_type: String,
}

/// Who makes the variants of a file.
#[derive(Debug, Clone, Copy, PartialEq, Eq, Structural)]
pub enum MediaProcessor {
    Image,
    Video,
}

/// Why a variant was not made.
#[derive(Debug, PartialEq)]
pub enum MediaProcessorError {
    UnsupportedContentType(String),
    /// As many variants as may be made at once are being made.
    AtCapacity,
}

/// Who makes the variants of files of a content type.
pub open spec fn processor_of(content_type: Seq<char>) -> Option<MediaProcessor> {
    if text::begins_with(content_type, "image/"@) {
        Some(MediaProcessor::Image)
    } else if text::begins_with(content_type, "video/"@) {
        Some(MediaProcessor::Video)
    } else {
        None
    }
}

/// Whose variants files of a content type may have.
pub open spec fn variants_of(content_type: Seq<char>) -> Option<MediaProcessor> {
    if text::begins_with(content_type, "image"@) {
        Some(MediaProcessor::Image)
    } else if text::begins_with(content_type, "video"@) {
        Some(MediaProcessor::Video)
    } else {
        None
    }
}

/// The path of a variant other than the main one, below the directory of the files.
pub open spec fn variant_path(
    owner: Seq<char>,
    file: Seq<char>,
    variant: FileVariant,
) -> Seq<Seq<char>> {
    seq![owner, file, variant.spelled()]
}

/// A temporary file, named like a variant with a dot and something behind it,
/// is never taken for a variant: one is seen only once it has its final name.
pub proof fn law_a_temporary_file_is_no_variant(
    owner: Seq<char>,
    file: Seq<char>,
    variant: FileVariant,
    named: FileVariant,
    suffix: Seq<char>,
)
    ensures
        variant_path(owner, file, variant) != seq![owner, file, named.spelled() + seq!['.'] + suffix],
{
    reveal_strlit("main");
    reveal_strlit("feed");
    reveal_strlit("small");
    let temporary = named.spelled() + seq!['.'] + suffix;
    assert(temporary[named.spelled().len() as int] == '.');
    let spelled = variant.spelled();
    assert(forall|i: int| 0 <= i < spelled.len() ==> spelled[i] != '.');
    assert(variant_path(owner, file, variant)[2] == spelled);
    assert(seq![owner, file, temporary][2] == temporary);
}

/// The path at which a variant is found; none for one that is always there.
pub open spec fn variant_place(
    owner: Seq<char>,
    file: Seq<char>,
    variant: FileVariant,
) -> Option<Seq<Seq<char>>> {
    if variant == FileVariant::Main {
        None
    } else {
        Some(variant_path(owner, file, variant))
    }
}

/// Whether a file of a content type may have a variant, of those that are made.
pub open spec fn variant_fits(
    content_type: Seq<char>,
    variant: FileVariant,
    made: Seq<FileVariant>,
) -> bool {
    variant == FileVariant::Main || (variants_of(content_type) is Some && made.contains(variant))
}

/// Only the main variant is always there, and every file has it. Another one is
/// found below its owner and its file, under its own name, and a file has it
/// exactly if its content type has variants and this one is made.
pub proof fn law_every_file_has_its_main_variant(
    owner: Seq<char>,
    file: Seq<char>,
    content_type: Seq<char>,
    variant: FileVariant,
    made: Seq<FileVariant>,
)
    ensures
        variant_place(owner, file, variant) is None <==> variant == FileVariant::Main,
        variant_place(owner, file, variant) matches Some(path) ==> path.len() == 3 && path[0]
            == owner && path[1] == file && path[2] == variant.spelled(),
        variant_fits(content_type, FileVariant::Main, made),
        variant != FileVariant::Main && variants_of(content_type) is None ==> !variant_fits(
            content_type,
            variant,
            made,
        ),
        variant != FileVariant::Main && variants_of(content_type) is Some ==> (variant_fits(
            content_type,
            variant,
            made,
        ) <==> made.contains(variant)),
{
}

/// Where a variant is found.
#[derive(Debug)]
pub enum VariantPlace {
    /// It is the file itself, which is always there.
    Always,
    /// It is there if this path is, below the directory of the files.
    At(Vec<String>),
}

/// How long is waited for a place among those who make variants, in seconds.
pub const ACQUIRE_TIMEOUT_SECS: u64 = 5;

/// The outcome of waiting for a place among those who make variants.
#[derive(Debug, Clone, Copy, PartialEq, Eq, Structural)]
pub enum GateOutcome {
    Acquired,
    /// There are no places any more.
    Closed,
    /// There was no place in time.
    Elapsed,
}

impl GateOutcome {
    /// Sheds the work unless there was a place.
    pub fn acquired(self) -> (admitted: Result<(), MediaProcessorError>)
        ensures
            admitted is Ok <==> self == GateOutcome::Acquired,
            admitted matches Err(error) ==> error == MediaProcessorError::AtCapacity,
    {
        match self {
            GateOutcome::Acquired => Ok(()),
            GateOutcome::Closed => Err(MediaProcessorError::AtCapacity),
            GateOutcome::Elapsed => Err(MediaProcessorError::AtCapacity),
        }
    }
}

/// Decides on the variants of files.
#[derive(Debug, Clone, Copy)]
pub struct VariantController;

impl VariantController {
    pub fn new() -> (controller: VariantController)
        ensures
            controller == VariantController,
    {
        VariantController
    }

    /// Who makes a variant of the file.
    pub fn create_file_variant(file: &FileDetails) -> (processor: Result<
        MediaProcessor,
        MediaProcessorError,
    >)
        ensures
            match processor {
                Ok(found) => processor_of(file.content_type@) == Some(found),
                Err(error) => processor_of(file.content_type@) is None && (error matches
                    MediaProcessorError::UnsupportedContentType(content_type) && content_type@
                    == file.content_type@),
            },
    {
        match VariantController::processor_for(file.content_type.as_str()) {
            Some(processor) => Ok(processor),
            None => Err(
                MediaProcessorError::UnsupportedContentType(file.content_type.clone()),
            ),
        }
    }

    /// Who makes the variants of files of a content type.
    pub fn processor_for(content_type: &str) -> (processor: Option<MediaProcessor>)
        ensures
            processor == processor_of(content_type@),
    {
        if starts_with(content_type, "image/") {
            Some(MediaProcessor::Image)
        } else if starts_with(content_type, "video/") {
            Some(MediaProcessor::Video)
        } else {
            None
        }
    }

    /// Where a variant of the file is found: the main variant always is there,
    /// and another one once it has been made.
    pub fn check_variant_exists(file: &FileDetails, variant: FileVariant) -> (place: VariantPlace)
        ensures
            match place {
                VariantPlace::Always => variant_place(file.owner_id@, file.id@, variant) is None,
                VariantPlace::At(path) => variant_place(file.owner_id@, file.id@, variant) == Some(
                    path.deep_view(),
                ),
            },
    {
        if variant == FileVariant::Main {
            VariantPlace::Always
        } else {
            let path = vec![
                file.owner_id.clone(),
                file.id.clone(),
                variant.name().to_owned(),
            ];
            assert(path.deep_view() =~= variant_path(file.owner_id@, file.id@, variant));
            VariantPlace::At(path)
        }
    }

    /// The content type of a variant: the file's own where nobody makes variants
    /// of it, and otherwise the one that its processor gives it.
    pub fn get_content_type_for_variant(file: &FileDetails, processed: Option<String>) -> (content_type:
        Option<String>)
        ensures
            content_type.deep_view() == (match processor_of(file.content_type@) {
                None => Some(file.content_type@),
                Some(_) => processed.deep_view(),
            }),
    {
        match VariantController::processor_for(file.content_type.as_str()) {
            None => Some(file.content_type.clone()),
            Some(_) => processed,
        }
    }

    /// Whose variants files of a content type may have.
    pub fn get_valid_variants_for_content_type(content_type: &str) -> (processor: Option<
        MediaProcessor,
    >)
        ensures
            processor == variants_of(content_type@),
    {
        if starts_with(content_type, "image") {
            Some(MediaProcessor::Image)
        } else if starts_with(content_type, "video") {
            Some(MediaProcessor::Video)
        } else {
            None
        }
    }

    /// The variants that the urls of a file of a content type are given for, out
    /// of those that its processor makes.
    pub fn get_file_urls_by_content_type(content_type: &str, made: Vec<FileVariant>) -> (variants:
        Vec<FileVariant>)
        ensures
            variants@ == (if variants_of(content_type@) is Some {
                made@
            } else {
                Seq::empty()
            }),
    {
        match VariantController::get_valid_variants_for_content_type(content_type) {
            Some(_) => made,
            None => Vec::new(),
        }
    }

    /// Whether a file of a content type may have a variant, given the variants
    /// that its processor makes. Every file has the main variant.
    pub fn validate_variant_for_content_type(
        content_type: &str,
        variant: &FileVariant,
        made: &Vec<FileVariant>,
    ) -> (valid: bool)
        ensures
            valid == variant_fits(content_type@, *variant, made@),
    {
        if *variant == FileVariant::Main {
            return true;
        }
        if VariantController::get_valid_variants_for_content_type(content_type).is_none() {
            return false;
        }
        let mut i: usize = 0;
        while i < made.len()
            invariant
                i <= made@.len(),
                variants_of(content_type@) is Some,
                forall|j: int| 0 <= j < i ==> #[trigger] made@[j] != *variant,
            decreases made@.len() - i,
        {
            if made[i] == *variant {
                return true;
            }
            i = i + 1;
        }
        false
    }
}

/// Images and videos have processors, whatever comes behind the slash; a content
/// type that has one may have variants, and by the same processor.
pub proof fn law_a_processor_makes_the_variants_of_its_type(rest: Seq<char>, content_type: Seq<char>)
    ensures
        processor_of("image/"@ + rest) == Some(MediaProcessor::Image),
        processor_of("video/"@ + rest) == Some(MediaProcessor::Video),
        processor_of(content_type) is Some ==> variants_of(content_type) == processor_of(
            content_type,
        ),
        variants_of("image"@ + rest) == Some(MediaProcessor::Image),
        variants_of("video"@ + rest) == Some(MediaProcessor::Video),
        content_type.len() < 5 ==> variants_of(content_type) is None,
        content_type.len() > 0 && content_type[0] != 'i' && content_type[0] != 'v' ==> variants_of(
            content_type,
        ) is None,
{
    reveal_strlit("image");
    reveal_strlit("video");
    reveal_strlit("image/");
    reveal_strlit("video/");
    let image = "image"@;
    let video = "video"@;
    let images = "image/"@;
    let videos = "video/"@;
    assert(image[0] == 'i' && video[0] == 'v' && images[0] == 'i' && videos[0] == 'v');
    assert(images.take(5) =~= image);
    assert(videos.take(5) =~= video);
    assert((images + rest).take(6) =~= images);
    assert((videos + rest).take(6) =~= videos);
    assert((image + rest).take(5) =~= image);
    assert((video + rest).take(5) =~= video);
    assert((videos + rest)[0] == 'v' && (video + rest)[0] == 'v');
    if text::begins_with(videos + rest, images) {
        assert((videos + rest).take(6)[0] == 'i');
    }
    if text::begins_with(video + rest, image) {
        assert((video + rest).take(5)[0] == 'i');
    }
    if text::begins_with(content_type, images) {
        assert(content_type.take(5) =~= content_type.take(6).take(5));
    }
    if text::begins_with(content_type, videos) {
        assert(content_type.take(5) =~= content_type.take(6).take(5));
        assert(content_type.take(6)[0] == 'v');
        if text::begins_with(content_type, image) {
            assert(content_type.take(5)[0] == 'i');
        }
    }
    if text::begins_with(content_type, image) {
        assert(content_type.take(5)[0] == 'i');
    }
    if text::begins_with(content_type, video) {
        assert(content_type.take(5)[0] == 'v');
    }
}

/// No two variants share a path: not those of different owners, nor of different
/// files, nor different ones of one file.
pub proof fn law_no_two_variants_share_a_path(
    owners: (Seq<char>, Seq<char>),
    files: (Seq<char>, Seq<char>),
    variants: (FileVariant, FileVariant),
)
    requires
        variant_path(owners.0, files.0, variants.0) == variant_path(owners.1, files.1, variants.1),
    ensures
        owners.0 == owners.1,
        files.0 == files.1,
        variants.0 == variants.1,
{
    let a = variant_path(owners.0, files.0, variants.0);
    let b = variant_path(owners.1, files.1, variants.1);
    assert(a[0] == b[0] && a[1] == b[1] && a[2] == b[2]);
    law_a_variant_is_told_by_its_name(variants.0, variants.1);
}

} // verus!
