//! Virtual project paths (`asset://`, `res://`, `user://`) and their
//! resolution under the configured asset, resource and user-data roots.
use vstd::prelude::*;

use crate::assets::{is_valid_asset_path, AssetError, AssetErrorView, AssetPath};
use crate::scan::{chars_subrange, contains_exec, contains_text, starts_with, starts_with_exec};
use crate::text::{chars_of, string_from_chars};

verus! {

/// The root a virtual path is written against.
#[derive(Debug, Clone, Copy, PartialEq, Eq, Structural)]
pub enum VirtualScheme {
    /// `asset://`: images, audio, video and fonts.
    Asset,
    /// `res://`: configuration, scenes, prefabs and data files.
    Resource,
    /// `user://`: writable user data.
    User,
    /// No scheme at all.
    Relative,
}

/// The scheme of a requested path and the part after the scheme, or nothing
/// where the path names a scheme other than the three known ones.
pub open spec fn spec_virtual_path(requested: Seq<char>) -> Option<(VirtualScheme, Seq<char>)> {
    if starts_with(requested, "asset://"@) {
        Some((VirtualScheme::Asset, requested.skip("asset://"@.len() as int)))
    } else if starts_with(requested, "res://"@) {
        Some((VirtualScheme::Resource, requested.skip("res://"@.len() as int)))
    } else if starts_with(requested, "user://"@) {
        Some((VirtualScheme::User, requested.skip("user://"@.len() as int)))
    } else if contains_text(requested, "://"@) {
        None
    } else {
        Some((VirtualScheme::Relative, requested))
    }
}

/// What a path error says, with its texts as characters.
#[verifier::ext_equal]
pub enum PathErrorView {
    UnsupportedScheme { requested: Seq<char> },
    ResourceAsAsset { requested: Seq<char>, relative_path: Seq<char> },
    UserAsAsset { requested: Seq<char> },
    AssetAsResource { requested: Seq<char>, relative_path: Seq<char> },
    UserAsResource { requested: Seq<char> },
    UnschemedResource { requested: Seq<char> },
    NotUserPath { requested: Seq<char> },
    InvalidAssetPath(AssetErrorView),
}

/// Why a virtual path was refused.
#[derive(Debug, Clone, PartialEq, Eq)]
pub enum PathError {
    /// The path names a scheme other than `asset://`, `res://` and `user://`.
    UnsupportedScheme { requested: String },
    /// A `res://` path was used where an asset is loaded.
    ResourceAsAsset { requested: String, relative_path: String },
    /// A `user://` path was used where an asset is loaded.
    UserAsAsset { requested: String },
    /// An `asset://` path was used where a resource is loaded.
    AssetAsResource { requested: String, relative_path: String },
    /// A `user://` path was used where a resource is loaded.
    UserAsResource { requested: String },
    /// A resource path without `res://`.
    UnschemedResource { requested: String },
    /// A user-data path without `user://`.
    NotUserPath { requested: String },
    /// The part after the scheme is not a valid path inside a root.
    InvalidAssetPath(AssetError),
}

impl View for PathError {
    type V = PathErrorView;

    open spec fn view(&self) -> PathErrorView {
        match self {
            PathError::UnsupportedScheme { requested } => PathErrorView::UnsupportedScheme {
                requested: requested@,
            },
            PathError::ResourceAsAsset { requested, relative_path } =>
                PathErrorView::ResourceAsAsset {
                requested: requested@,
                relative_path: relative_path@,
            },
            PathError::UserAsAsset { requested } => PathErrorView::UserAsAsset {
                requested: requested@,
            },
            PathError::AssetAsResource { requested, relative_path } =>
                PathErrorView::AssetAsResource {
                requested: requested@,
                relative_path: relative_path@,
            },
            PathError::UserAsResource { requested } => PathErrorView::UserAsResource {
                requested: requested@,
            },
            PathError::UnschemedResource { requested } => PathErrorView::UnschemedResource {
                requested: requested@,
            },
            PathError::NotUserPath { requested } => PathErrorView::NotUserPath {
                requested: requested@,
            },
            PathError::InvalidAssetPath(error) => PathErrorView::InvalidAssetPath(error@),
        }
    }
}

impl PathErrorView {
    pub open spec fn message(self) -> Seq<char> {
        match self {
            PathErrorView::UnsupportedScheme { requested } => "unsupported virtual path scheme in "@
                + requested + "; expected asset://, res://, or user://"@,
            PathErrorView::ResourceAsAsset { requested, relative_path } =>
                "possible wrong scheme: you used "@ + requested
                + ". Sprites, audio, video, and fonts are assets. Try asset://"@ + relative_path,
            PathErrorView::UserAsAsset { requested } =>
                "user:// paths are reserved for writable user data and cannot be loaded as assets: "@
                + requested,
            PathErrorView::AssetAsResource { requested, relative_path } =>
                "possible wrong scheme: you used "@ + requested
                + ". Configuration, scenes, prefabs, and data files are resources. Try res://"@
                + relative_path,
            PathErrorView::UserAsResource { requested } =>
                "user:// paths are reserved for writable user data and cannot be loaded as resources: "@
                + requested,
            PathErrorView::UnschemedResource { requested } =>
                "resource paths must use res:// so they resolve under [resources].root: "@
                + requested,
            PathErrorView::NotUserPath { requested } =>
                "user data paths must use user:// so they resolve under the user data root: "@
                + requested,
            PathErrorView::InvalidAssetPath(error) => error.message(),
        }
    }
}

fn concat2(first: &str, second: &str) -> (text: String)
    ensures
        text@ == first@ + second@,
{
    let mut text = first.to_owned();
    text.append(second);
    text
}

fn concat3(first: &str, second: &str, third: &str) -> (text: String)
    ensures
        text@ == first@ + second@ + third@,
{
    let mut text = first.to_owned();
    text.append(second);
    text.append(third);
    text
}

fn concat4(first: &str, second: &str, third: &str, fourth: &str) -> (text: String)
    ensures
        text@ == first@ + second@ + third@ + fourth@,
{
    let mut text = first.to_owned();
    text.append(second);
    text.append(third);
    text.append(fourth);
    text
}

impl PathError {
    /// The human-readable description of the error.
    pub fn message(&self) -> (text: String)
        ensures
            text@ == self@.message(),
    {
        match self {
            PathError::UnsupportedScheme { requested } => concat3(
                "unsupported virtual path scheme in ",
                requested.as_str(),
                "; expected asset://, res://, or user://",
            ),
            PathError::ResourceAsAsset { requested, relative_path } => concat4(
                "possible wrong scheme: you used ",
                requested.as_str(),
                ". Sprites, audio, video, and fonts are assets. Try asset://",
                relative_path.as_str(),
            ),
            PathError::UserAsAsset { requested } => concat2(
                "user:// paths are reserved for writable user data and cannot be loaded as assets: ",
                requested.as_str(),
            ),
            PathError::AssetAsResource { requested, relative_path } => concat4(
                "possible wrong scheme: you used ",
                requested.as_str(),
                ". Configuration, scenes, prefabs, and data files are resources. Try res://",
                relative_path.as_str(),
            ),
            PathError::UserAsResource { requested } => concat2(
                "user:// paths are reserved for writable user data and cannot be loaded as resources: ",
                requested.as_str(),
            ),
            PathError::UnschemedResource { requested } => concat2(
                "resource paths must use res:// so they resolve under [resources].root: ",
                requested.as_str(),
            ),
            PathError::NotUserPath { requested } => concat2(
                "user data paths must use user:// so they resolve under the user data root: ",
                requested.as_str(),
            ),
            PathError::InvalidAssetPath(error) => error.message(),
        }
    }
}

/// A requested path split into its scheme and the part after it.
#[derive(Debug, Clone, PartialEq, Eq)]
pub struct VirtualPath {
    scheme: VirtualScheme,
    relative_path: String,
    requested: String,
}

impl VirtualPath {
    pub closed spec fn spec_scheme(&self) -> VirtualScheme {
        self.scheme
    }

    pub closed spec fn spec_relative_path(&self) -> Seq<char> {
        self.relative_path@
    }

    pub closed spec fn spec_requested(&self) -> Seq<char> {
        self.requested@
    }

    /// Splits `requested` at a known scheme. A path with no `://` at all is
    /// relative; one with another scheme is refused.
    pub fn parse(requested: &str) -> (result: Result<VirtualPath, PathError>)
        ensures
            spec_virtual_path(requested@) matches Some((scheme, rel)) ==> (result matches Ok(path)
                && path.spec_scheme() == scheme && path.spec_relative_path() == rel
                && path.spec_requested() == requested@),
            spec_virtual_path(requested@) is None ==> (result matches Err(error) && error@
                == PathErrorView::UnsupportedScheme { requested: requested@ }),
    {
        let chars = chars_of(requested);
        let asset = chars_of("asset://");
        let resource = chars_of("res://");
        let user = chars_of("user://");
        let separator = chars_of("://");
        let (scheme, skip) = if starts_with_exec(chars.as_slice(), asset.as_slice()) {
            (VirtualScheme::Asset, asset.len())
        } else if starts_with_exec(chars.as_slice(), resource.as_slice()) {
            (VirtualScheme::Resource, resource.len())
        } else if starts_with_exec(chars.as_slice(), user.as_slice()) {
            (VirtualScheme::User, user.len())
        } else if contains_exec(chars.as_slice(), separator.as_slice()) {
            return Err(PathError::UnsupportedScheme { requested: requested.to_owned() });
        } else {
            (VirtualScheme::Relative, 0)
        };
        let relative = chars_subrange(chars.as_slice(), skip, chars.len());
        assert(relative@ =~= requested@.skip(skip as int));
        Ok(
            VirtualPath {
                scheme,
                relative_path: string_from_chars(relative.as_slice()),
                requested: requested.to_owned(),
            },
        )
    }

    #[verifier::when_used_as_spec(spec_scheme)]
    pub fn scheme(&self) -> (scheme: VirtualScheme)
        ensures
            scheme == self.spec_scheme(),
    {
        self.scheme
    }

    /// The part of the path after its scheme.
    pub fn relative_path(&self) -> (text: &str)
        ensures
            text@ == self.spec_relative_path(),
    {
        self.relative_path.as_str()
    }

    /// The path as it was requested.
    pub fn requested(&self) -> (text: &str)
        ensures
            text@ == self.spec_requested(),
    {
        self.requested.as_str()
    }
}

/// The error, if any, of loading a path of the given scheme as an asset.
pub open spec fn spec_asset_scheme_error(
    scheme: VirtualScheme,
    requested: Seq<char>,
    relative_path: Seq<char>,
) -> Option<PathErrorView> {
    match scheme {
        VirtualScheme::Asset | VirtualScheme::Relative => None,
        VirtualScheme::Resource => Some(
            PathErrorView::ResourceAsAsset { requested, relative_path },
        ),
        VirtualScheme::User => Some(PathErrorView::UserAsAsset { requested }),
    }
}

/// The error, if any, of loading a path of the given scheme as a resource.
pub open spec fn spec_resource_scheme_error(
    scheme: VirtualScheme,
    requested: Seq<char>,
    relative_path: Seq<char>,
) -> Option<PathErrorView> {
    match scheme {
        VirtualScheme::Resource => None,
        VirtualScheme::Asset => Some(PathErrorView::AssetAsResource { requested, relative_path }),
        VirtualScheme::User => Some(PathErrorView::UserAsResource { requested }),
        VirtualScheme::Relative => Some(PathErrorView::UnschemedResource { requested }),
    }
}

/// Accepts `asset://` and scheme-less paths for asset loading.
pub fn ensure_asset_scheme(path: &VirtualPath) -> (result: Result<(), PathError>)
    ensures
        match spec_asset_scheme_error(
            path.spec_scheme(),
            path.spec_requested(),
            path.spec_relative_path(),
        ) {
            None => result is Ok,
            Some(expected) => result matches Err(error) && error@ == expected,
        },
{
    match path.scheme() {
        VirtualScheme::Asset | VirtualScheme::Relative => Ok(()),
        VirtualScheme::Resource => Err(
            PathError::ResourceAsAsset {
                requested: path.requested().to_owned(),
                relative_path: path.relative_path().to_owned(),
            },
        ),
        VirtualScheme::User => Err(
            PathError::UserAsAsset { requested: path.requested().to_owned() },
        ),
    }
}

/// Accepts only `res://` paths for resource loading.
pub fn ensure_resource_scheme(path: &VirtualPath) -> (result: Result<(), PathError>)
    ensures
        match spec_resource_scheme_error(
            path.spec_scheme(),
            path.spec_requested(),
            path.spec_relative_path(),
        ) {
            None => result is Ok,
            Some(expected) => result matches Err(error) && error@ == expected,
        },
{
    match path.scheme() {
        VirtualScheme::Resource => Ok(()),
        VirtualScheme::Asset => Err(
            PathError::AssetAsResource {
                requested: path.requested().to_owned(),
                relative_path: path.relative_path().to_owned(),
            },
        ),
        VirtualScheme::User => Err(
            PathError::UserAsResource { requested: path.requested().to_owned() },
        ),
        VirtualScheme::Relative => Err(
            PathError::UnschemedResource { requested: path.requested().to_owned() },
        ),
    }
}

/// `relative` appended to `root` the way a path is joined: with one `/`
/// between them unless `root` is empty or already ends in `/`.
pub open spec fn spec_join(root: Seq<char>, relative: Seq<char>) -> Seq<char> {
    if root.len() == 0 {
        relative
    } else if root.last() == '/' {
        root + relative
    } else {
        root + seq!['/'] + relative
    }
}

/// `relative` appended to `root` with one `/` between them.
pub fn join(root: &str, relative: &str) -> (joined: String)
    ensures
        joined@ == spec_join(root@, relative@),
{
    let root_chars = chars_of(root);
    if root_chars.len() == 0 {
        return relative.to_owned();
    }
    let mut joined = root.to_owned();
    if root_chars[root_chars.len() - 1] != '/' {
        joined.append("/");
        proof {
            reveal_strlit("/");
        }
    }
    joined.append(relative);
    joined
}

/// The outcome of resolving `requested` under `root` once its scheme has been
/// accepted: the joined path, or the refusal of the part after the scheme.
pub open spec fn spec_resolve_under(root: Seq<char>, relative_path: Seq<char>) -> Result<
    Seq<char>,
    PathErrorView,
> {
    if is_valid_asset_path(relative_path) {
        Ok(spec_join(root, relative_path))
    } else {
        Err(PathErrorView::InvalidAssetPath(AssetErrorView::InvalidPath(relative_path)))
    }
}

/// Resolution of `requested` as an asset under `root`.
pub open spec fn spec_resolve_asset(root: Seq<char>, requested: Seq<char>) -> Result<
    Seq<char>,
    PathErrorView,
> {
    match spec_virtual_path(requested) {
        None => Err(PathErrorView::UnsupportedScheme { requested }),
        Some((scheme, rel)) => match spec_asset_scheme_error(scheme, requested, rel) {
            Some(error) => Err(error),
            None => spec_resolve_under(root, rel),
        },
    }
}

/// Resolution of `requested` as a resource under `root`.
pub open spec fn spec_resolve_resource(root: Seq<char>, requested: Seq<char>) -> Result<
    Seq<char>,
    PathErrorView,
> {
    match spec_virtual_path(requested) {
        None => Err(PathErrorView::UnsupportedScheme { requested }),
        Some((scheme, rel)) => match spec_resource_scheme_error(scheme, requested, rel) {
            Some(error) => Err(error),
            None => spec_resolve_under(root, rel),
        },
    }
}

/// Resolution of `requested` as user data under `root`.
pub open spec fn spec_resolve_user(root: Seq<char>, requested: Seq<char>) -> Result<
    Seq<char>,
    PathErrorView,
> {
    match spec_virtual_path(requested) {
        None => Err(PathErrorView::UnsupportedScheme { requested }),
        Some((scheme, rel)) => if scheme == VirtualScheme::User {
            spec_resolve_under(root, rel)
        } else {
            Err(PathErrorView::NotUserPath { requested })
        },
    }
}

/// Whether `root` begins `path`.
pub open spec fn has_prefix(path: Seq<char>, root: Seq<char>) -> bool {
    root.len() <= path.len() && path.subrange(0, root.len() as int) == root
}

proof fn lemma_join_keeps_root(root: Seq<char>, relative: Seq<char>)
    ensures
        has_prefix(spec_join(root, relative), root),
{
    let joined = spec_join(root, relative);
    if root.len() == 0 {
        assert(joined.subrange(0, 0) =~= root);
    } else if root.last() == '/' {
        assert(joined.subrange(0, root.len() as int) =~= root);
    } else {
        assert(joined.subrange(0, root.len() as int) =~= root);
    }
}

/// A resolved asset, resource or user path lies under its root, and what
/// follows the root is a valid asset path: it is not absolute and never
/// climbs out with `..`.
pub proof fn lemma_resolution_stays_under_root(root: Seq<char>, requested: Seq<char>)
    ensures
        spec_resolve_asset(root, requested) matches Ok(path) ==> has_prefix(path, root),
        spec_resolve_resource(root, requested) matches Ok(path) ==> has_prefix(path, root),
        spec_resolve_user(root, requested) matches Ok(path) ==> has_prefix(path, root),
        forall|rel: Seq<char>| #[trigger] spec_resolve_under(root, rel) is Ok ==> is_valid_asset_path(rel),
{
    if let Some((_, rel)) = spec_virtual_path(requested) {
        lemma_join_keeps_root(root, rel);
    }
}

/// A resolution outcome with its texts as characters.
pub open spec fn resolved_view(result: Result<String, PathError>) -> Result<
    Seq<char>,
    PathErrorView,
> {
    match result {
        Ok(path) => Ok(path@),
        Err(error) => Err(error@),
    }
}

/// The three roots that virtual paths resolve under.
#[derive(Debug, Clone)]
pub struct ProjectPaths {
    asset_root: String,
    resource_root: String,
    user_root: String,
}

impl ProjectPaths {
    pub closed spec fn spec_asset_root(&self) -> Seq<char> {
        self.asset_root@
    }

    pub closed spec fn spec_resource_root(&self) -> Seq<char> {
        self.resource_root@
    }

    pub closed spec fn spec_user_root(&self) -> Seq<char> {
        self.user_root@
    }

    pub fn new(asset_root: String, resource_root: String, user_root: String) -> (paths:
        ProjectPaths)
        ensures
            paths.spec_asset_root() == asset_root@,
            paths.spec_resource_root() == resource_root@,
            paths.spec_user_root() == user_root@,
    {
        ProjectPaths { asset_root, resource_root, user_root }
    }

    pub fn asset_root(&self) -> (root: &str)
        ensures
            root@ == self.spec_asset_root(),
    {
        self.asset_root.as_str()
    }

    pub fn resource_root(&self) -> (root: &str)
        ensures
            root@ == self.spec_resource_root(),
    {
        self.resource_root.as_str()
    }

    pub fn user_root(&self) -> (root: &str)
        ensures
            root@ == self.spec_user_root(),
    {
        self.user_root.as_str()
    }

    /// Resolves the part after an accepted scheme under `root`.
    fn resolve_under(root: &str, path: &VirtualPath) -> (result: Result<String, PathError>)
        ensures
            resolved_view(result) == spec_resolve_under(root@, path.spec_relative_path()),
    {
        match AssetPath::new(path.relative_path()) {
            Ok(asset_path) => Ok(join(root, asset_path.as_str())),
            Err(error) => Err(PathError::InvalidAssetPath(error)),
        }
    }

    /// Resolves an `asset://` (or scheme-less) path under the asset root.
    pub fn resolve_asset(&self, requested: &str) -> (result: Result<String, PathError>)
        ensures
            resolved_view(result) == spec_resolve_asset(self.spec_asset_root(), requested@),
    {
        let path = VirtualPath::parse(requested)?;
        ensure_asset_scheme(&path)?;
        Self::resolve_under(self.asset_root.as_str(), &path)
    }

    /// Resolves a `res://` path under the resource root.
    pub fn resolve_resource(&self, requested: &str) -> (result: Result<String, PathError>)
        ensures
            resolved_view(result) == spec_resolve_resource(
                self.spec_resource_root(),
                requested@,
            ),
    {
        let path = VirtualPath::parse(requested)?;
        ensure_resource_scheme(&path)?;
        Self::resolve_under(self.resource_root.as_str(), &path)
    }

    /// Resolves a `user://` path under the user-data root.
    pub fn resolve_user(&self, requested: &str) -> (result: Result<String, PathError>)
        ensures
            resolved_view(result) == spec_resolve_user(self.spec_user_root(), requested@),
    {
        let path = VirtualPath::parse(requested)?;
        if path.scheme() != VirtualScheme::User {
            return Err(PathError::NotUserPath { requested: requested.to_owned() });
        }
        Self::resolve_under(self.user_root.as_str(), &path)
    }
}


// ---------------------------------------------------------------------------
// Diagnostics for files that could not be loaded

/// Which kind of file a load diagnostic is about.
#[derive(Debug, Clone, Copy, PartialEq, Eq, Structural)]
pub enum PathDiagnosticKind {
    Asset,
    Resource,
}

/// The words of a diagnostic of the kind: its label, the label of its root,
/// the scheme hint for its own kind and the one for the other kind.
pub open spec fn spec_diagnostic_words(kind: PathDiagnosticKind) -> (Seq<char>, Seq<char>, Seq<char>, Seq<char>) {
    match kind {
        PathDiagnosticKind::Asset => (
            "Asset"@,
            "Configured asset root"@,
            "Use asset:// for images, audio, video, and fonts."@,
            "Use res:// for resources/configuration/scene files."@,
        ),
        PathDiagnosticKind::Resource => (
            "Resource"@,
            "Configured resource root"@,
            "Use res:// for resources/configuration/scene files."@,
            "Use asset:// for images, audio, video, and fonts."@,
        ),
    }
}

/// What is said of a file that could not be loaded: what was requested,
/// where it resolved, the configured root, suggestions and the cause.
pub open spec fn spec_diagnostic_message(
    kind: PathDiagnosticKind,
    requested: Seq<char>,
    resolved: Seq<char>,
    root: Seq<char>,
    cause: Seq<char>,
) -> Seq<char> {
    let (label, root_label, scheme_hint, other_scheme_hint) = spec_diagnostic_words(kind);
    label + " not found or could not be loaded: "@ + requested + "\n\nResolved path:\n  "@ + resolved + "\n\n"@
        + root_label + ":\n  "@ + root
        + "\n\nSuggestions:\n  - Check if the file exists.\n  - Check Seishin.toml root configuration.\n  - "@
        + scheme_hint + "\n  - "@ + other_scheme_hint + "\n\nCause: "@ + cause
}

fn diagnostic_words(kind: PathDiagnosticKind) -> (words: (&'static str, &'static str, &'static str, &'static str))
    ensures
        (words.0@, words.1@, words.2@, words.3@) == spec_diagnostic_words(kind),
{
    match kind {
        PathDiagnosticKind::Asset => (
            "Asset",
            "Configured asset root",
            "Use asset:// for images, audio, video, and fonts.",
            "Use res:// for resources/configuration/scene files.",
        ),
        PathDiagnosticKind::Resource => (
            "Resource",
            "Configured resource root",
            "Use res:// for resources/configuration/scene files.",
            "Use asset:// for images, audio, video, and fonts.",
        ),
    }
}

/// A file that could not be loaded: its kind, the requested path, the path
/// it resolved to, the configured root and the cause, as texts.
#[derive(Debug, Clone, PartialEq, Eq)]
pub struct PathDiagnosticError {
    pub kind: PathDiagnosticKind,
    pub requested: String,
    pub resolved: String,
    pub root: String,
    pub cause: String,
}

impl PathDiagnosticError {
    /// An asset that could not be loaded.
    pub fn asset(requested: &str, resolved: &str, root: &str, cause: &str) -> (error: Self)
        ensures
            error.kind == PathDiagnosticKind::Asset,
            error.requested@ == requested@,
            error.resolved@ == resolved@,
            error.root@ == root@,
            error.cause@ == cause@,
    {
        PathDiagnosticError {
            kind: PathDiagnosticKind::Asset,
            requested: requested.to_owned(),
            resolved: resolved.to_owned(),
            root: root.to_owned(),
            cause: cause.to_owned(),
        }
    }

    /// A resource that could not be loaded.
    pub fn resource(requested: &str, resolved: &str, root: &str, cause: &str) -> (error: Self)
        ensures
            error.kind == PathDiagnosticKind::Resource,
            error.requested@ == requested@,
            error.resolved@ == resolved@,
            error.root@ == root@,
            error.cause@ == cause@,
    {
        PathDiagnosticError {
            kind: PathDiagnosticKind::Resource,
            requested: requested.to_owned(),
            resolved: resolved.to_owned(),
            root: root.to_owned(),
            cause: cause.to_owned(),
        }
    }

    /// What the diagnostic says.
    pub fn message(&self) -> (text: String)
        ensures
            text@ == spec_diagnostic_message(self.kind, self.requested@, self.resolved@, self.root@, self.cause@),
    {
        let (label, root_label, scheme_hint, other_scheme_hint) = diagnostic_words(self.kind);
        let mut text = label.to_owned();
        text.append(" not found or could not be loaded: ");
        text.append(self.requested.as_str());
        text.append("\n\nResolved path:\n  ");
        text.append(self.resolved.as_str());
        text.append("\n\n");
        text.append(root_label);
        text.append(":\n  ");
        text.append(self.root.as_str());
        text.append("\n\nSuggestions:\n  - Check if the file exists.\n  - Check Seishin.toml root configuration.\n  - ");
        text.append(scheme_hint);
        text.append("\n  - ");
        text.append(other_scheme_hint);
        text.append("\n\nCause: ");
        text.append(self.cause.as_str());
        text
    }
}

} // verus!
