use vstd::prelude::*;
use crate::aabb::AabbCache;

verus! {

/// The two ordered phases of blueprint spawning within one tick.
#[derive(Debug, Clone, Copy, PartialEq, Eq, Structural)]
pub enum GltfBlueprintsSet {
    Spawn,
    AfterSpawn,
}

/// The encoding of the scene files in the library.
#[derive(Debug, Clone, Copy, PartialEq, Eq, Structural, Hash)]
pub enum GltfFormat {
    GLB,
    GLTF,
}

/// The file extension of a format, as it appears in a library path.
pub open spec fn format_extension(f: GltfFormat) -> Seq<char> {
    match f {
        GltfFormat::GLB => seq!['g', 'l', 'b'],
        GltfFormat::GLTF => seq!['g', 'l', 't', 'f'],
    }
}

impl GltfFormat {
    /// The binary format is the default.
    pub fn default() -> (r: GltfFormat)
        ensures
            r == GltfFormat::GLB,
    {
        GltfFormat::GLB
    }

    /// The file extension of this format ("glb" or "gltf").
    pub fn to_string(&self) -> (r: String)
        ensures
            r@ == format_extension(*self),
    {
        let r = match self {
            GltfFormat::GLB => String::from_str("glb"),
            GltfFormat::GLTF => String::from_str("gltf"),
        };
        proof {
            reveal_strlit("glb");
            reveal_strlit("gltf");
        }
        r
    }
}


/// Where the blueprint files live: one folder, or an explicit list of file paths.
pub enum BlueprintsLibrary {
    Folder(String),
    Files(Vec<String>),
}

/// The errors of resolving and configuring a blueprint library.
#[derive(Debug, Clone, Copy, PartialEq, Eq, Structural)]
pub enum BlueprintError {
    /// No library file matches the requested blueprint name.
    UnknownBlueprint,
    /// A folder library was configured where directories cannot be scanned.
    EnvironmentUnsupported,
}

/// Settings of the blueprint pipeline, fixed at initialisation.
pub struct BlueprintsPlugin {
    pub format: GltfFormat,
    /// The folder or files the blueprint assets are loaded from.
    pub library: BlueprintsLibrary,
    pub aabbs: bool,
}

impl BlueprintsPlugin {
    /// Binary files from the folder `models/library`, without bounding boxes.
    pub fn default() -> (r: BlueprintsPlugin)
        ensures
            r.format == GltfFormat::GLB,
            r.library is Folder,
            r.library->Folder_0@ == "models/library"@,
            !r.aabbs,
    {
        BlueprintsPlugin {
            format: GltfFormat::GLB,
            library: BlueprintsLibrary::Folder(String::from_str("models/library")),
            aabbs: false,
        }
    }
}

/// Fails at initialisation when a folder library is asked for where directories
/// cannot be scanned.
pub fn check_library_environment(library: &BlueprintsLibrary, can_scan_directories: bool) -> (r:
    Result<(), BlueprintError>)
    ensures
        r is Err <==> (library is Folder && !can_scan_directories),
        r is Err ==> r->Err_0 == BlueprintError::EnvironmentUnsupported,
{
    match library {
        BlueprintsLibrary::Folder(_) => {
            if can_scan_directories {
                Ok(())
            } else {
                Err(BlueprintError::EnvironmentUnsupported)
            }
        },
        BlueprintsLibrary::Files(_) => Ok(()),
    }
}


/// The pipeline's settings and the bounding-box cache it owns.
pub struct BluePrintsConfig {
    pub format: GltfFormat,
    pub library: BlueprintsLibrary,
    pub aabbs: bool,
    pub aabb_cache: AabbCache,
}

impl BlueprintsPlugin {
    /// The pipeline configuration these settings describe, with an empty cache.
    pub fn build_config(self) -> (r: BluePrintsConfig)
        ensures
            r.format == self.format,
            r.library == self.library,
            r.aabbs == self.aabbs,
            r.aabb_cache.entries@.len() == 0,
    {
        BluePrintsConfig {
            format: self.format,
            library: self.library,
            aabbs: self.aabbs,
            aabb_cache: AabbCache::new(),
        }
    }
}

/// Whether the bounding-box step runs.
pub fn aabbs_enabled(config: &BluePrintsConfig) -> (r: bool)
    ensures
        r == config.aabbs,
{
    config.aabbs
}

} // verus!
