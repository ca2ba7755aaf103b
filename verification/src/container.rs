//! The container scanner: which layers of an image are scanned, how the
//! findings of the layers are merged into those of the image, and which
//! images a Dockerfile builds on.

use crate::model::clone_vulnerabilities;
use crate::model::SourceFile;
use crate::model::SourceFileView;
use crate::model::Vulnerability;
use crate::model::VulnerabilityView;
use crate::outside::compile_pattern;
use crate::outside::group_matches;
use crate::outside::group_matches_of;
use crate::outside::pattern_compiles;
use crate::sequences::lemma_filter_step;
use crate::sequences::lemma_flat_map_step;
use crate::sequences::lemma_present_none;
use crate::sequences::lemma_present_step;
use crate::sequences::those_present;
use crate::text::extension;
use crate::text::file_name;
use crate::text::file_name_of;
use crate::text::extension_of;
use vstd::prelude::*;

verus! {

/// The security options a container is run with.
#[derive(Debug, PartialEq, Eq)]
pub struct SecurityContext {
    pub privileged: bool,
    pub capabilities: Vec<String>,
    pub security_opt: Vec<String>,
    pub user: Option<String>,
    pub group: Option<String>,
}

impl Default for SecurityContext {
    /// Not privileged, with no capabilities, options, user or group.
    fn default() -> (c: SecurityContext)
        ensures
            !c.privileged,
            c.capabilities@.len() == 0,
            c.security_opt@.len() == 0,
            c.user is None,
            c.group is None,
    {
        SecurityContext {
            privileged: false,
            capabilities: Vec::new(),
            security_opt: Vec::new(),
            user: None,
            group: None,
        }
    }
}

/// The settings of the container scanner.
#[derive(Debug, PartialEq, Eq)]
pub struct ContainerScannerConfig {
    /// Seconds after which a pull or the scan of a layer is given up.
    pub timeout: u64,
    /// Only the first `max_layers` layers of an image are scanned.
    pub max_layers: usize,
    /// The positions of the layers that are not scanned.
    pub skip_layers: Vec<usize>,
    pub cache_dir: Option<String>,
    pub offline_mode: bool,
    pub ignore_patterns: Vec<String>,
    pub security_context: SecurityContext,
}

impl Default for ContainerScannerConfig {
    /// A timeout of 30 seconds, at most 100 layers, none skipped, the cache
    /// in `.rustguard_cache`, online, nothing ignored.
    fn default() -> (c: ContainerScannerConfig)
        ensures
            c.timeout == 30,
            c.max_layers == 100,
            c.skip_layers@.len() == 0,
            c.cache_dir.deep_view() == Some(".rustguard_cache"@),
            !c.offline_mode,
            c.ignore_patterns@.len() == 0,
            !c.security_context.privileged,
            c.security_context.capabilities@.len() == 0,
            c.security_context.security_opt@.len() == 0,
            c.security_context.user is None,
            c.security_context.group is None,
    {
        ContainerScannerConfig {
            timeout: 30,
            max_layers: 100,
            skip_layers: Vec::new(),
            cache_dir: Some(".rustguard_cache".to_owned()),
            offline_mode: false,
            ignore_patterns: Vec::new(),
            security_context: SecurityContext::default(),
        }
    }
}

/// Why the scan of a container failed.
#[derive(Debug, PartialEq, Eq)]
pub enum ContainerScanError {
    PullError(String),
    LayerError(String),
    VulnerabilityError(String),
    CacheError(String),
    Timeout,
    InvalidImage(String),
}

impl ContainerScanError {
    /// The message of an error.
    pub open spec fn message_text(self) -> Seq<char> {
        match self {
            ContainerScanError::PullError(d) => "Failed to pull image: "@ + d@,
            ContainerScanError::LayerError(d) => "Failed to extract layer: "@ + d@,
            ContainerScanError::VulnerabilityError(d) => "Failed to check vulnerabilities: "@ + d@,
            ContainerScanError::CacheError(d) => "Cache error: "@ + d@,
            ContainerScanError::Timeout => "Timeout while scanning container"@,
            ContainerScanError::InvalidImage(d) => "Invalid image format: "@ + d@,
        }
    }

    /// The message of this error.
    pub fn message(&self) -> (m: String)
        ensures
            m@ == self.message_text(),
    {
        match self {
            ContainerScanError::PullError(d) => "Failed to pull image: ".to_owned().concat(
                d.as_str(),
            ),
            ContainerScanError::LayerError(d) => "Failed to extract layer: ".to_owned().concat(
                d.as_str(),
            ),
            ContainerScanError::VulnerabilityError(d) => "Failed to check vulnerabilities: "
                .to_owned().concat(d.as_str()),
            ContainerScanError::CacheError(d) => "Cache error: ".to_owned().concat(d.as_str()),
            ContainerScanError::Timeout => "Timeout while scanning container".to_owned(),
            ContainerScanError::InvalidImage(d) => "Invalid image format: ".to_owned().concat(
                d.as_str(),
            ),
        }
    }
}

/// What is known of an image as a whole.
#[derive(Debug, PartialEq, Eq)]
pub struct ContainerMetadata {
    pub created: String,
    pub architecture: String,
    pub os: String,
    pub size: u64,
}

/// One layer of an image with the vulnerabilities found in it.
#[derive(Debug, PartialEq, Eq)]
pub struct Layer {
    pub id: String,
    pub size: u64,
    pub vulnerabilities: Vec<Vulnerability>,
}

/// What a `Layer` holds, with its texts as sequences of characters.
pub struct LayerView {
    pub id: Seq<char>,
    pub size: u64,
    pub vulnerabilities: Seq<VulnerabilityView>,
}

impl View for Layer {
    type V = LayerView;

    open spec fn view(&self) -> LayerView {
        LayerView {
            id: self.id@,
            size: self.size,
            vulnerabilities: self.vulnerabilities.deep_view(),
        }
    }
}

impl DeepView for Layer {
    type V = LayerView;

    open spec fn deep_view(&self) -> LayerView {
        self@
    }
}

/// A layer as the image client hands it over: its vulnerabilities, or
/// `None` where the layer could not be extracted or was not looked at.
#[derive(Debug, PartialEq, Eq)]
pub struct LayerInput {
    pub id: String,
    pub size: u64,
    pub findings: Option<Vec<Vulnerability>>,
}

/// What a `LayerInput` holds, with its texts as sequences of characters.
pub struct LayerInputView {
    pub id: Seq<char>,
    pub size: u64,
    pub findings: Option<Seq<VulnerabilityView>>,
}

impl View for LayerInput {
    type V = LayerInputView;

    open spec fn view(&self) -> LayerInputView {
        LayerInputView { id: self.id@, size: self.size, findings: self.findings.deep_view() }
    }
}

impl DeepView for LayerInput {
    type V = LayerInputView;

    open spec fn deep_view(&self) -> LayerInputView {
        self@
    }
}

/// The result of the scan of an image: the vulnerabilities of the image,
/// each once, and those of each scanned layer.
#[derive(Debug, PartialEq, Eq)]
pub struct ContainerScanResult {
    pub image: String,
    pub vulnerabilities: Vec<Vulnerability>,
    pub layers: Vec<Layer>,
    pub metadata: ContainerMetadata,
}

/// Whether the layer at position `i` is scanned: it is among the first
/// `max_layers` and not among those to skip.
pub open spec fn layer_selected(i: int, max_layers: usize, skip: Seq<usize>) -> bool {
    0 <= i < max_layers && !skip.contains(i as usize)
}

/// The positions `0`, `1`, ... below `count`.
pub open spec fn positions(count: nat) -> Seq<usize> {
    Seq::new(count, |i: int| i as usize)
}

/// The test whether the layer at a position is scanned.
pub open spec fn selects(max_layers: usize, skip: Seq<usize>) -> spec_fn(usize) -> bool {
    |i: usize| layer_selected(i as int, max_layers, skip)
}

/// The positions of the layers that are scanned, of `count` layers in all,
/// ascending.
pub open spec fn selected(count: nat, max_layers: usize, skip: Seq<usize>) -> Seq<usize> {
    positions(count).filter(selects(max_layers, skip))
}

fn is_skipped(skip: &Vec<usize>, i: usize) -> (b: bool)
    ensures
        b == skip@.contains(i),
{
    let mut j: usize = 0;
    while j < skip.len()
        invariant
            j <= skip.len(),
            forall|m: int| 0 <= m < j ==> skip@[m] != i,
        decreases skip.len() - j,
    {
        if skip[j] == i {
            return true;
        }
        j += 1;
    }
    false
}

fn is_selected(i: usize, config: &ContainerScannerConfig) -> (b: bool)
    ensures
        b == layer_selected(i as int, config.max_layers, config.skip_layers@),
{
    i < config.max_layers && !is_skipped(&config.skip_layers, i)
}

/// The positions of the layers of an image that are to be scanned, of
/// `layer_count` layers in all, ascending.
pub fn select_layers(layer_count: usize, config: &ContainerScannerConfig) -> (r: Vec<usize>)
    ensures
        r@ == selected(layer_count as nat, config.max_layers, config.skip_layers@),
{
    let ghost all = positions(layer_count as nat);
    let ghost wanted = selects(config.max_layers, config.skip_layers@);
    let mut r: Vec<usize> = Vec::new();
    let mut i: usize = 0;
    proof {
        reveal(Seq::filter);
        assert(all.take(0).filter(wanted) =~= Seq::<usize>::empty());
    }
    while i < layer_count
        invariant
            i <= layer_count,
            all == positions(layer_count as nat),
            wanted == selects(config.max_layers, config.skip_layers@),
            r@ == all.take(i as int).filter(wanted),
        decreases layer_count - i,
    {
        proof {
            assert(all[i as int] == i);
            lemma_filter_step(all, wanted, i as int);
        }
        if is_selected(i, config) {
            r.push(i);
        }
        i += 1;
    }
    assert(all.take(i as int) =~= all);
    r
}

/// A position is among those selected exactly when it is a position of a
/// layer, below the limit and not skipped.
pub proof fn lemma_selected_layers(count: nat, max_layers: usize, skip: Seq<usize>, i: usize)
    requires
        count <= usize::MAX,
    ensures
        selected(count, max_layers, skip).contains(i) <==> i < count && layer_selected(
            i as int,
            max_layers,
            skip,
        ),
{
    let all = positions(count);
    let wanted = selects(max_layers, skip);
    if selected(count, max_layers, skip).contains(i) {
        let j = choose|j: int| 0 <= j < all.filter(wanted).len() && all.filter(wanted)[j] == i;
        all.lemma_filter_pred(wanted, j);
        all.lemma_filter_contains_rev(wanted, i);
        let m = choose|m: int| 0 <= m < all.len() && all[m] == i;
        assert(m == i);
    }
    if i < count && layer_selected(i as int, max_layers, skip) {
        assert(all[i as int] == i);
        all.lemma_filter_contains(wanted, i as int);
    }
}

/// What is kept of a layer, given its position: the layer with its
/// vulnerabilities, if it is scanned and could be extracted.
pub open spec fn kept_layer(max_layers: usize, skip: Seq<usize>) -> spec_fn(
    int,
    LayerInputView,
) -> Option<LayerView> {
    |i: int, l: LayerInputView|
        if layer_selected(i, max_layers, skip) && l.findings is Some {
            Some(LayerView { id: l.id, size: l.size, vulnerabilities: l.findings->0 })
        } else {
            None
        }
}

/// The layers that are scanned and could be extracted, each with its
/// vulnerabilities, in the order of the layers.
pub open spec fn kept_layers(layers: Seq<LayerInputView>, max_layers: usize, skip: Seq<usize>) -> Seq<
    LayerView,
> {
    those_present(layers.map(kept_layer(max_layers, skip)))
}

/// The vulnerabilities of a layer.
pub open spec fn findings_of() -> spec_fn(LayerView) -> Seq<VulnerabilityView> {
    |l: LayerView| l.vulnerabilities
}

/// The vulnerabilities of a list of layers, layer by layer.
pub open spec fn layer_findings(layers: Seq<LayerView>) -> Seq<VulnerabilityView> {
    layers.flat_map(findings_of())
}

/// Whether two findings are the same vulnerability of the same package at
/// the same version.
pub open spec fn same_finding(a: VulnerabilityView, b: VulnerabilityView) -> bool {
    a.id == b.id && a.package == b.package && a.version == b.version
}

/// Whether a list holds a finding that is the same as `v`.
pub open spec fn holds_finding(list: Seq<VulnerabilityView>, v: VulnerabilityView) -> bool {
    exists|j: int| 0 <= j < list.len() && same_finding(#[trigger] list[j], v)
}

/// A list of findings with each finding once: of findings that are the
/// same, the first stays.
pub open spec fn merged(found: Seq<VulnerabilityView>) -> Seq<VulnerabilityView>
    decreases found.len(),
{
    if found.len() == 0 {
        found
    } else {
        let before = merged(found.drop_last());
        if holds_finding(before, found.last()) {
            before
        } else {
            before.push(found.last())
        }
    }
}

/// No finding occurs twice in a merged list.
pub proof fn lemma_merged_unique(found: Seq<VulnerabilityView>, a: int, b: int)
    requires
        0 <= a < b < merged(found).len(),
    ensures
        !same_finding(merged(found)[a], merged(found)[b]),
    decreases found.len(),
{
    if found.len() > 0 {
        let before = merged(found.drop_last());
        if b < before.len() {
            lemma_merged_unique(found.drop_last(), a, b);
        }
    }
}

/// Every finding is in the merged list, itself or one that is the same.
pub proof fn lemma_merged_covers(found: Seq<VulnerabilityView>, i: int)
    requires
        0 <= i < found.len(),
    ensures
        holds_finding(merged(found), found[i]),
    decreases found.len(),
{
    let before = merged(found.drop_last());
    let now = merged(found);
    if i < found.len() - 1 {
        lemma_merged_covers(found.drop_last(), i);
        assert(found.drop_last()[i] == found[i]);
        let j = choose|j: int| 0 <= j < before.len() && same_finding(#[trigger] before[j], found[i]);
        assert(same_finding(now[j], found[i]));
    } else {
        if holds_finding(before, found.last()) {
        } else {
            assert(same_finding(now[before.len() as int], found[i]));
        }
    }
}

fn is_same_finding(a: &Vulnerability, b: &Vulnerability) -> (r: bool)
    ensures
        r == same_finding(a@, b@),
{
    a.id == b.id && a.package == b.package && a.version == b.version
}

fn has_finding(list: &Vec<Vulnerability>, v: &Vulnerability) -> (r: bool)
    ensures
        r == holds_finding(list.deep_view(), v@),
{
    let mut j: usize = 0;
    while j < list.len()
        invariant
            j <= list.len(),
            forall|m: int| 0 <= m < j ==> !same_finding(#[trigger] list.deep_view()[m], v@),
        decreases list.len() - j,
    {
        assert(list.deep_view()[j as int] == list@[j as int]@);
        if is_same_finding(&list[j], v) {
            return true;
        }
        j += 1;
    }
    false
}

/// Merges findings: each vulnerability of a package at a version is kept
/// once, the first time it occurs.
pub fn merge_findings(found: &Vec<Vulnerability>) -> (r: Vec<Vulnerability>)
    ensures
        r.deep_view() == merged(found.deep_view()),
{
    let ghost all = found.deep_view();
    let mut r: Vec<Vulnerability> = Vec::new();
    let mut i: usize = 0;
    assert(all.take(0) =~= Seq::<VulnerabilityView>::empty());
    assert(r.deep_view() =~= Seq::<VulnerabilityView>::empty());
    while i < found.len()
        invariant
            i <= found.len(),
            all == found.deep_view(),
            r.deep_view() == merged(all.take(i as int)),
        decreases found.len() - i,
    {
        let v = &found[i];
        proof {
            assert(all[i as int] == v@);
            assert(all.take(i + 1).drop_last() =~= all.take(i as int));
        }
        if !has_finding(&r, v) {
            let ghost before = r.deep_view();
            r.push(v.clone());
            assert(r.deep_view() =~= before.push(v@));
        }
        i += 1;
    }
    assert(all.take(i as int) =~= all);
    r
}

/// Puts together the result of the scan of an image from what the image
/// client found in its layers.
///
/// Of the layers, those among the first `max_layers` that are not skipped
/// and could be extracted are kept, each with its own vulnerabilities. The
/// vulnerabilities of the image are those of the kept layers, layer by
/// layer, with each vulnerability of a package at a version counted once.
pub fn scan_image(
    image: &str,
    metadata: ContainerMetadata,
    layers: &Vec<LayerInput>,
    config: &ContainerScannerConfig,
) -> (r: ContainerScanResult)
    ensures
        r.image@ == image@,
        r.metadata == metadata,
        r.layers.deep_view() == kept_layers(
            layers.deep_view(),
            config.max_layers,
            config.skip_layers@,
        ),
        r.vulnerabilities.deep_view() == merged(layer_findings(r.layers.deep_view())),
{
    let ghost all = layers.deep_view();
    let ghost keep = kept_layer(config.max_layers, config.skip_layers@);
    let ghost kept_or_not = all.map(keep);
    let mut kept: Vec<Layer> = Vec::new();
    let mut found: Vec<Vulnerability> = Vec::new();
    let mut i: usize = 0;
    proof {
        lemma_present_none(kept_or_not);
        assert(kept.deep_view() =~= Seq::<LayerView>::empty());
        assert(kept.deep_view().map_values(findings_of()) =~= Seq::<Seq<VulnerabilityView>>::empty());
        assert(found.deep_view() =~= layer_findings(kept.deep_view()));
    }
    while i < layers.len()
        invariant
            i <= layers.len(),
            all == layers.deep_view(),
            keep == kept_layer(config.max_layers, config.skip_layers@),
            kept_or_not == all.map(keep),
            kept.deep_view() == those_present(kept_or_not.take(i as int)),
            found.deep_view() == layer_findings(kept.deep_view()),
        decreases layers.len() - i,
    {
        let l = &layers[i];
        proof {
            assert(all[i as int] == l@);
            assert(kept_or_not[i as int] == keep(i as int, l@));
            lemma_present_step(kept_or_not, i as int);
        }
        if is_selected(i, config) {
            match &l.findings {
                Some(vulnerabilities) => {
                    let layer = Layer {
                        id: l.id.clone(),
                        size: l.size,
                        vulnerabilities: clone_vulnerabilities(vulnerabilities),
                    };
                    let mut copy = clone_vulnerabilities(vulnerabilities);
                    let ghost kept_before = kept.deep_view();
                    let ghost found_before = found.deep_view();
                    let ghost added = copy.deep_view();
                    kept.push(layer);
                    found.append(&mut copy);
                    proof {
                        assert(kept.deep_view() =~= kept_before.push(layer@));
                        assert(found.deep_view() =~= found_before + added);
                        kept_before.lemma_flat_map_push(findings_of(), layer@);
                    }
                },
                None => {},
            }
        }
        i += 1;
    }
    assert(kept_or_not.take(i as int) =~= kept_or_not);
    ContainerScanResult {
        image: image.to_owned(),
        vulnerabilities: merge_findings(&found),
        layers: kept,
        metadata,
    }
}

/// The regex that finds the base images of a Dockerfile: at the start of
/// a line, after blanks, the word `FROM` in either case, blanks, any
/// options that begin with `--`, and the image reference up to the next
/// white space, which is the first capture group. Every `FROM` instruction
/// gives one match, whether its image has a registry, a path, a tag or
/// none of them.
pub open spec fn from_pattern() -> Seq<char> {
    "(?mi)^[ \\t]*FROM[ \\t]+(?:--\\S+[ \\t]+)*(\\S+)"@
}

fn from_pattern_text() -> (s: &'static str)
    ensures
        s@ == from_pattern(),
{
    "(?mi)^[ \\t]*FROM[ \\t]+(?:--\\S+[ \\t]+)*(\\S+)"
}

/// The images a Dockerfile builds on: the first capture group of each match
/// of `from_pattern` in its text, in order.
pub open spec fn base_images(content: Seq<char>) -> Seq<Seq<char>> {
    those_present(group_matches_of(from_pattern(), content, 1))
}

fn keep_present(list: Vec<Option<String>>) -> (r: Vec<String>)
    ensures
        r.deep_view() == those_present(list.deep_view()),
{
    let ghost all = list.deep_view();
    let mut r: Vec<String> = Vec::new();
    let mut i: usize = 0;
    proof {
        lemma_present_none(all);
        assert(r.deep_view() =~= Seq::<Seq<char>>::empty());
    }
    while i < list.len()
        invariant
            i <= list.len(),
            all == list.deep_view(),
            r.deep_view() == those_present(all.take(i as int)),
        decreases list.len() - i,
    {
        proof {
            assert(all[i as int] == list@[i as int].deep_view());
            lemma_present_step(all, i as int);
        }
        match &list[i] {
            Some(t) => {
                let ghost before = r.deep_view();
                r.push(t.clone());
                assert(r.deep_view() =~= before.push(t@));
            },
            None => {},
        }
        i += 1;
    }
    assert(all.take(i as int) =~= all);
    r
}

/// Finds the images that a Dockerfile builds on; each is then scanned as
/// an image of its own.
///
/// The result is an error only where the regex of `from_pattern` does not
/// compile; the error carries the pattern.
pub fn scan_dockerfile(content: &str) -> (r: Result<Vec<String>, ContainerScanError>)
    ensures
        pattern_compiles(from_pattern()) ==> (r matches Ok(images) && images.deep_view()
            == base_images(content@)),
        !pattern_compiles(from_pattern()) ==> (r matches Err(ContainerScanError::InvalidImage(p))
            && p@ == from_pattern()),
{
    match compile_pattern(from_pattern_text()) {
        Ok(re) => Ok(keep_present(group_matches(&re, content, 1))),
        Err(_) => Err(ContainerScanError::InvalidImage(from_pattern_text().to_owned())),
    }
}

/// Whether a file is a Dockerfile: its name is `Dockerfile`, or its
/// extension is.
pub open spec fn is_dockerfile(path: Seq<char>) -> bool {
    file_name_of(path) == "Dockerfile"@ || extension_of(path) == Some("Dockerfile"@)
}

/// Whether a file is a Dockerfile.
pub fn wants_file(path: &str) -> (b: bool)
    ensures
        b == is_dockerfile(path@),
{
    if file_name(path) == "Dockerfile".to_owned() {
        return true;
    }
    match extension(path) {
        Some(e) => e == "Dockerfile".to_owned(),
        None => false,
    }
}

/// The images that a file gives: those that it builds on if it is a
/// Dockerfile, none otherwise.
pub open spec fn file_images() -> spec_fn(SourceFileView) -> Seq<Seq<char>> {
    |f: SourceFileView|
        if is_dockerfile(f.path) {
            base_images(f.content)
        } else {
            Seq::empty()
        }
}

/// The images that the Dockerfiles of a directory build on, file by file.
pub open spec fn directory_images(files: Seq<SourceFileView>) -> Seq<Seq<char>> {
    files.flat_map(file_images())
}

/// Whether any of the files is a Dockerfile.
pub open spec fn any_dockerfile(files: Seq<SourceFileView>) -> bool {
    exists|i: int| 0 <= i < files.len() && is_dockerfile(#[trigger] files[i].path)
}

/// Finds the images that the Dockerfiles of a directory build on, file by
/// file in the order given. Files that are no Dockerfiles are passed over.
///
/// The result is an error only where there is a Dockerfile and the regex of
/// `from_pattern` does not compile.
pub fn scan_directory(files: &Vec<SourceFile>) -> (r: Result<Vec<String>, ContainerScanError>)
    ensures
        pattern_compiles(from_pattern()) || !any_dockerfile(files.deep_view()) ==> (r matches Ok(
            images,
        ) && images.deep_view() == directory_images(files.deep_view())),
        !pattern_compiles(from_pattern()) && any_dockerfile(files.deep_view()) ==> (r matches Err(
            ContainerScanError::InvalidImage(p),
        ) && p@ == from_pattern()),
{
    let ghost fs = files.deep_view();
    let mut images: Vec<String> = Vec::new();
    let mut k: usize = 0;
    proof {
        assert(fs.take(0).map_values(file_images()) =~= Seq::<Seq<Seq<char>>>::empty());
        assert(images.deep_view() =~= fs.take(0).flat_map(file_images()));
    }
    while k < files.len()
        invariant
            k <= files.len(),
            fs == files.deep_view(),
            images.deep_view() == fs.take(k as int).flat_map(file_images()),
            pattern_compiles(from_pattern()) || forall|j: int|
                0 <= j < k ==> !is_dockerfile(#[trigger] fs[j].path),
        decreases files.len() - k,
    {
        let f = &files[k];
        proof {
            assert(fs[k as int] == f@);
            lemma_flat_map_step(fs, file_images(), k as int);
        }
        let ghost before = images.deep_view();
        if wants_file(f.path.as_str()) {
            match scan_dockerfile(f.content.as_str()) {
                Ok(mut found) => {
                    let ghost added = found.deep_view();
                    images.append(&mut found);
                    assert(images.deep_view() =~= before + added);
                },
                Err(e) => {
                    assert(is_dockerfile(fs[k as int].path));
                    return Err(e);
                },
            }
        } else {
            assert(before + Seq::<Seq<char>>::empty() =~= before);
        }
        k += 1;
    }
    assert(fs.take(k as int) =~= fs);
    Ok(images)
}

} // verus!
