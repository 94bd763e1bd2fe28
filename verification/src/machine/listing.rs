//! Images that a machine caches: listing and removing them.
use crate::copying::{opt_text, texts};
use crate::machine::errors::{ConfigError, config_error};
use crate::numerals::{decimal, decimal_chars};
use crate::phrase::lemma_texts_push;
use crate::text::{chars_of, say2, say3, say4, say5, string_of, text_from_utf8};
use crate::wire::byte_stretch;
use vstd::prelude::*;
use vstd::utf8::{decode_utf8, encode_utf8, is_char_boundary};

verus! {

/// What `images` is asked for.
#[derive(Debug)]
pub struct ImagesCmd {
    pub name: String,
    pub json: bool,
}

/// What `prune` is asked for.
#[derive(Debug)]
pub struct PruneCmd {
    pub name: String,
    pub dry_run: bool,
    pub all: bool,
}

/// Why a command on a machine that is not there fails.
pub fn machine_not_found(what: &str, name: &str) -> (r: ConfigError)
    ensures
        r@ == (what@, "machine '"@ + name@ + "' not found"@),
{
    config_error(what, say3("machine '", name, "' not found"))
}

// ---------------------------------------------------------------------------
// Listing
// ---------------------------------------------------------------------------

/// `n` spaces.
pub open spec fn blanks(n: int) -> Seq<char> {
    Seq::new(
        if n > 0 {
            n as nat
        } else {
            0
        },
        |i: int| ' ',
    )
}

fn push_blanks(out: &mut String, n: usize)
    ensures
        final(out)@ == old(out)@ + blanks(n as int),
{
    let ghost before = out@;
    let mut i: usize = 0;
    proof { assert(before + blanks(0) =~= before); }
    while i < n
        invariant
            i <= n,
            before == old(out)@,
            out@ == before + blanks(i as int),
        decreases n - i,
    {
        out.push(' ');
        proof { assert(before + blanks(i + 1) =~= (before + blanks(i as int)).push(' ')); }
        i = i + 1;
    }
}

/// A text with spaces behind it, up to a width.
pub fn pad_right(s: &str, width: usize) -> (r: String)
    ensures
        r@ == s@ + blanks(width - s@.len()),
{
    let n = chars_of(s).len();
    let mut out = s.to_owned();
    push_blanks(
        &mut out,
        if width > n {
            width - n
        } else {
            0
        },
    );
    proof { assert(out@ =~= s@ + blanks(width - s@.len())); }
    out
}

/// A text with spaces before it, up to a width.
pub fn pad_left(s: &str, width: usize) -> (r: String)
    ensures
        r@ == blanks(width - s@.len()) + s@,
{
    let n = chars_of(s).len();
    let mut out = String::from_str("");
    push_blanks(
        &mut out,
        if width > n {
            width - n
        } else {
            0
        },
    );
    out.append(s);
    proof {
        reveal_strlit("");
        assert(out@ =~= blanks(width - s@.len()) + s@);
    }
    out
}

/// The longest reference that is shown whole, in bytes.
pub const LABEL_BYTES: usize = 38;

/// Bytes of a longer reference that are shown.
pub const SHORT_LABEL_BYTES: usize = 35;

/// A reference as it is shown: a long one is cut.
pub open spec fn label_of(reference: Seq<char>) -> Seq<char> {
    let bytes = encode_utf8(reference);
    if bytes.len() > LABEL_BYTES {
        decode_utf8(bytes.take(SHORT_LABEL_BYTES as int)) + "..."@
    } else {
        reference
    }
}

/// Whether a reference can be cut where a long one is: not within a character.
pub open spec fn cuttable(reference: Seq<char>) -> bool {
    let bytes = encode_utf8(reference);
    bytes.len() > LABEL_BYTES ==> is_char_boundary(bytes, SHORT_LABEL_BYTES as int)
}

/// A reference as it is shown.
pub fn image_label(reference: &str) -> (r: String)
    requires
        cuttable(reference@),
    ensures
        r@ == label_of(reference@),
{
    let bytes = reference.as_bytes();
    if bytes.len() <= LABEL_BYTES {
        return reference.to_owned();
    }
    let head = byte_stretch(bytes, 0, SHORT_LABEL_BYTES);
    proof {
        vstd::utf8::encode_utf8_valid_utf8(reference@);
        vstd::utf8::valid_utf8_split(bytes@, SHORT_LABEL_BYTES as int);
        assert(head@ =~= bytes@.take(SHORT_LABEL_BYTES as int));
        assert(head@ =~= bytes@.subrange(0, SHORT_LABEL_BYTES as int));
    }
    match text_from_utf8(head) {
        Some(s) => say2(s.as_str(), "..."),
        None => reference.to_owned(),
    }
}

/// A row of the list: label, size and layers in columns.
pub open spec fn row_of(label: Seq<char>, size: Seq<char>, layers: Seq<char>) -> Seq<char> {
    label + blanks(40 - label.len()) + " "@ + (blanks(10 - size.len()) + size) + " "@ + (blanks(
        8 - layers.len(),
    ) + layers)
}

/// A row of the list: label, size and layers in columns. `size` is the size as text.
pub fn image_row(label: &str, size: &str, layers: &str) -> (r: String)
    ensures
        r@ == row_of(label@, size@, layers@),
{
    say5(
        pad_right(label, 40).as_str(),
        " ",
        pad_left(size, 10).as_str(),
        " ",
        pad_left(layers, 8).as_str(),
    )
}

/// An image that a machine caches.
#[derive(Debug, PartialEq, Eq)]
pub struct CachedImage {
    pub reference: String,
    /// Its size as text.
    pub size: String,
    pub layers: u64,
}

/// The rows of the list.
pub open spec fn rows_of(images: Seq<CachedImage>) -> Seq<Seq<char>> {
    Seq::new(
        images.len(),
        |i: int| row_of(label_of(images[i].reference@), images[i].size@, decimal(images[i].layers as nat)),
    )
}

/// What is told of a machine's storage. `total` and `used` are sizes as text.
pub open spec fn storage_report_of(
    total: Seq<char>,
    used: Seq<char>,
    layers: u64,
    images: Seq<CachedImage>,
) -> Seq<Seq<char>> {
    seq![
        "Storage Usage:"@,
        "  Total:  "@ + total,
        "  Used:   "@ + used,
        "  Layers: "@ + decimal(layers as nat),
        ""@,
    ] + if images.len() == 0 {
        seq!["No cached images."@]
    } else {
        seq![
            "Cached Images:"@,
            row_of("IMAGE"@, "SIZE"@, "LAYERS"@),
            "------------------------------------------------------------"@,
        ] + rows_of(images) + seq![""@, "Total: "@ + decimal(images.len()) + " images"@]
    }
}

fn push_line(out: &mut Vec<String>, line: String)
    ensures
        texts(final(out)@) == texts(old(out)@).push(line@),
{
    proof { lemma_texts_push(out@, line); }
    out.push(line);
}

impl ImagesCmd {
    /// What is told of a machine's storage, line by line.
    pub fn run(&self, total: &str, used: &str, layers: u64, images: &[CachedImage]) -> (r: Vec<String>)
        requires
            forall|i: int| 0 <= i < images@.len() ==> cuttable((#[trigger] images@[i]).reference@),
        ensures
            texts(r@) == storage_report_of(total@, used@, layers, images@),
    {
        let mut out: Vec<String> = Vec::new();
        proof { assert(texts(out@) =~= Seq::empty()); }
        push_line(&mut out, "Storage Usage:".to_owned());
        push_line(&mut out, say2("  Total:  ", total));
        push_line(&mut out, say2("  Used:   ", used));
        push_line(
            &mut out,
            say2("  Layers: ", string_of(&decimal_chars(layers as u128)).as_str()),
        );
        push_line(&mut out, "".to_owned());
        let ghost head = seq![
            "Storage Usage:"@,
            "  Total:  "@ + total@,
            "  Used:   "@ + used@,
            "  Layers: "@ + decimal(layers as nat),
            ""@,
        ];
        proof { assert(texts(out@) =~= head); }
        if images.len() == 0 {
            push_line(&mut out, "No cached images.".to_owned());
            proof { assert(texts(out@) =~= head + seq!["No cached images."@]); }
            return out;
        }
        push_line(&mut out, "Cached Images:".to_owned());
        push_line(&mut out, image_row("IMAGE", "SIZE", "LAYERS"));
        push_line(
            &mut out,
            "------------------------------------------------------------".to_owned(),
        );
        let ghost top = seq![
            "Cached Images:"@,
            row_of("IMAGE"@, "SIZE"@, "LAYERS"@),
            "------------------------------------------------------------"@,
        ];
        let ghost before = texts(out@);
        let ghost rows = rows_of(images@);
        let mut i: usize = 0;
        proof {
            assert(before =~= head + top);
            assert(before + rows.take(0) =~= before);
        }
        while i < images.len()
            invariant
                i <= images@.len(),
                rows == rows_of(images@),
                forall|k: int|
                    0 <= k < images@.len() ==> cuttable((#[trigger] images@[k]).reference@),
                texts(out@) == before + rows.take(i as int),
            decreases images@.len() - i,
        {
            assert(cuttable(images@[i as int].reference@));
            let label = image_label(images[i].reference.as_str());
            let count = string_of(&decimal_chars(images[i].layers as u128));
            push_line(
                &mut out,
                image_row(label.as_str(), images[i].size.as_str(), count.as_str()),
            );
            proof {
                assert(rows.take(i + 1) =~= rows.take(i as int).push(rows[i as int]));
                assert(before + rows.take(i + 1) =~= (before + rows.take(i as int)).push(
                    rows[i as int],
                ));
            }
            i = i + 1;
        }
        proof { assert(rows.take(images@.len() as int) =~= rows); }
        push_line(&mut out, "".to_owned());
        push_line(
            &mut out,
            say3("Total: ", string_of(&decimal_chars(images.len() as u128)).as_str(), " images"),
        );
        proof {
            assert(texts(out@) =~= head + (top + rows + seq![
                ""@,
                "Total: "@ + decimal(images@.len()) + " images"@,
            ]));
        }
        out
    }
}

/// Every cell of the list has its width, and a label that is shown always fits.
pub proof fn law_columns_line_up(reference: Seq<char>, size: Seq<char>, layers: Seq<char>)
    requires
        cuttable(reference),
        size.len() <= 10,
        layers.len() <= 8,
    ensures
        row_of(label_of(reference), size, layers).len() == 60,
{
    reveal_strlit(" ");
    reveal_strlit("...");
    let bytes = encode_utf8(reference);
    vstd::utf8::encode_utf8_valid_utf8(reference);
    if bytes.len() > LABEL_BYTES {
        let head = bytes.take(SHORT_LABEL_BYTES as int);
        vstd::utf8::valid_utf8_split(bytes, SHORT_LABEL_BYTES as int);
        assert(head =~= bytes.subrange(0, SHORT_LABEL_BYTES as int));
        lemma_decoded_length(head);
    } else {
        vstd::utf8::encode_utf8_decode_utf8(reference);
        lemma_decoded_length(bytes);
    }
}

proof fn lemma_decoded_length(bytes: Seq<u8>)
    requires
        vstd::utf8::valid_utf8(bytes),
    ensures
        decode_utf8(bytes).len() <= bytes.len(),
    decreases bytes.len(),
{
    if bytes.len() > 0 {
        lemma_decoded_length(vstd::utf8::pop_first_scalar(bytes));
    }
}

// ---------------------------------------------------------------------------
// Removing
// ---------------------------------------------------------------------------

/// How a machine is reached to remove what it caches.
#[derive(Debug, Clone, Copy, PartialEq, Eq, Structural)]
pub enum PruneAccess {
    /// It runs and stays so.
    Running,
    /// It is started, and stopped afterwards.
    StartFirst,
}

impl PruneCmd {
    /// How a machine is reached, or why not: what a running one uses is never removed.
    pub fn access(&self, running: bool) -> (r: Result<PruneAccess, ConfigError>)
        ensures
            match r {
                Ok(PruneAccess::Running) => running && !self.all,
                Ok(PruneAccess::StartFirst) => !running,
                Err(e) => running && self.all && e@ == (
                    "prune"@,
                    "cannot prune --all while machine '"@ + self.name@
                        + "' is running. Stop it first with: smolvm machine stop --name "@ + self.name@,
                ),
            },
    {
        if running && self.all {
            Err(
                config_error(
                    "prune",
                    say4(
                        "cannot prune --all while machine '",
                        self.name.as_str(),
                        "' is running. Stop it first with: smolvm machine stop --name ",
                        self.name.as_str(),
                    ),
                ),
            )
        } else if running {
            Ok(PruneAccess::Running)
        } else {
            Ok(PruneAccess::StartFirst)
        }
    }
}

/// What is removed.
#[derive(Debug, Clone, Copy, PartialEq, Eq, Structural)]
pub enum PrunePlan {
    /// There is no image to remove.
    NoImages,
    /// The machine's image stays; layers without an image go.
    KeepImages,
    /// Every image would go.
    ListImages,
    /// Every image goes.
    RemoveImages,
    /// Layers without an image go.
    Layers,
}

/// What is removed: with all images asked for, those of a machine that has an image
/// of its own stay all the same, as it could not be started again without.
pub open spec fn prune_plan_of(all: bool, dry_run: bool, images: int, has_image: bool) -> PrunePlan {
    if !all {
        PrunePlan::Layers
    } else if images == 0 {
        PrunePlan::NoImages
    } else if has_image {
        PrunePlan::KeepImages
    } else if dry_run {
        PrunePlan::ListImages
    } else {
        PrunePlan::RemoveImages
    }
}

impl PruneCmd {
    /// What is removed.
    pub fn run(&self, images: usize, has_image: bool) -> (r: PrunePlan)
        ensures
            r == prune_plan_of(self.all, self.dry_run, images as int, has_image),
    {
        if !self.all {
            PrunePlan::Layers
        } else if images == 0 {
            PrunePlan::NoImages
        } else if has_image {
            PrunePlan::KeepImages
        } else if self.dry_run {
            PrunePlan::ListImages
        } else {
            PrunePlan::RemoveImages
        }
    }
}

/// What the machine's collector is asked for, if it is: whether only to count, and
/// whether images go too.
pub open spec fn collection_of(plan: PrunePlan, dry_run: bool) -> Option<(bool, bool)> {
    match plan {
        PrunePlan::NoImages | PrunePlan::ListImages => None,
        PrunePlan::KeepImages | PrunePlan::Layers => Some((dry_run, false)),
        PrunePlan::RemoveImages => Some((false, true)),
    }
}

/// What the machine's collector is asked for.
pub fn collection(plan: PrunePlan, dry_run: bool) -> (r: Option<(bool, bool)>)
    ensures
        r == collection_of(plan, dry_run),
{
    match plan {
        PrunePlan::NoImages | PrunePlan::ListImages => None,
        PrunePlan::KeepImages | PrunePlan::Layers => Some((dry_run, false)),
        PrunePlan::RemoveImages => Some((false, true)),
    }
}

/// A dry run removes nothing, and a machine never loses the image that it needs to
/// start again.
pub proof fn law_prune_keeps_what_is_needed(all: bool, dry_run: bool, images: int, has_image: bool)
    ensures
        ({
            let asked = collection_of(prune_plan_of(all, dry_run, images, has_image), dry_run);
            asked matches Some((count_only, with_images)) ==> {
                &&& dry_run ==> count_only
                &&& has_image || !all ==> !with_images
            }
        }),
{
}

/// What is told before a removal, if anything.
pub fn prune_opening(plan: PrunePlan, dry_run: bool) -> (r: Option<String>)
    ensures
        opt_text(r) == match plan {
            PrunePlan::NoImages | PrunePlan::KeepImages | PrunePlan::ListImages => None,
            PrunePlan::RemoveImages => Some("Removing all cached images..."@),
            PrunePlan::Layers => if dry_run {
                Some("Scanning for unreferenced layers..."@)
            } else {
                Some("Removing unreferenced layers..."@)
            },
        },
{
    match plan {
        PrunePlan::NoImages | PrunePlan::KeepImages | PrunePlan::ListImages => None,
        PrunePlan::RemoveImages => Some("Removing all cached images...".to_owned()),
        PrunePlan::Layers => if dry_run {
            Some("Scanning for unreferenced layers...".to_owned())
        } else {
            Some("Removing unreferenced layers...".to_owned())
        },
    }
}

/// What is told of a removal. `total` is the images' size as text, `freed` what was
/// or would be freed and `freed_text` that as text.
pub open spec fn prune_report_of(
    plan: PrunePlan,
    dry_run: bool,
    name: Seq<char>,
    images: int,
    total: Seq<char>,
    freed: u64,
    freed_text: Seq<char>,
) -> Seq<char> {
    match plan {
        PrunePlan::NoImages => "No cached images to remove."@,
        PrunePlan::KeepImages => if dry_run {
            "Machine '"@ + name + "' is image-backed: would keep "@ + decimal(images as nat)
                + " cached image(s) ("@ + total + ") it needs to restart, and free "@ + freed_text
                + " of unreferenced layers."@
        } else {
            "Kept "@ + decimal(images as nat) + " cached image(s) in use by machine '"@ + name
                + "'; freed "@ + freed_text + " of unreferenced layers."@
        },
        PrunePlan::ListImages => "Would remove "@ + decimal(images as nat) + " images ("@ + total
            + ")"@,
        PrunePlan::RemoveImages => "Removed "@ + decimal(images as nat) + " images, freed "@
            + freed_text,
        PrunePlan::Layers => if freed == 0 {
            "No unreferenced layers to remove."@
        } else if dry_run {
            "Would free "@ + freed_text + " of unreferenced layers"@
        } else {
            "Freed "@ + freed_text
        },
    }
}

/// What is told of a removal.
pub fn prune_report(
    plan: PrunePlan,
    dry_run: bool,
    name: &str,
    images: usize,
    total: &str,
    freed: u64,
    freed_text: &str,
) -> (r: String)
    ensures
        r@ == prune_report_of(plan, dry_run, name@, images as int, total@, freed, freed_text@),
{
    let count = string_of(&decimal_chars(images as u128));
    match plan {
        PrunePlan::NoImages => "No cached images to remove.".to_owned(),
        PrunePlan::KeepImages => if dry_run {
            let mut line = say5(
                "Machine '",
                name,
                "' is image-backed: would keep ",
                count.as_str(),
                " cached image(s) (",
            );
            line.append(total);
            line.append(") it needs to restart, and free ");
            line.append(freed_text);
            line.append(" of unreferenced layers.");
            line
        } else {
            let mut line = say5(
                "Kept ",
                count.as_str(),
                " cached image(s) in use by machine '",
                name,
                "'; freed ",
            );
            line.append(freed_text);
            line.append(" of unreferenced layers.");
            line
        },
        PrunePlan::ListImages => say5("Would remove ", count.as_str(), " images (", total, ")"),
        PrunePlan::RemoveImages => say4("Removed ", count.as_str(), " images, freed ", freed_text),
        PrunePlan::Layers => if freed == 0 {
            "No unreferenced layers to remove.".to_owned()
        } else if dry_run {
            say3("Would free ", freed_text, " of unreferenced layers")
        } else {
            say2("Freed ", freed_text)
        },
    }
}

} // verus!
