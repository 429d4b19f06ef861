# swift-project-model

The project model of Swift packages, Xcode projects and Xcode workspaces, as a
library verified with Verus, and the Basalt plugin around it.

- `src/scan.rs`: searching and reading raw manifest bytes
- `src/text.rs`: decoding, identifiers, the parts of a path
- `src/targets.rs`: the targets found in a manifest, and their limits
- `src/package.rs`: the targets and the name in `Package.swift`
- `src/xcode.rs`: the targets in `project.pbxproj`
- `src/json.rs`: JSON values, how they are written, and that they read back
- `src/model.rs`: kinds and capabilities of projects and targets
- `src/emit.rs`: the model as a JSON value, and writing it
- `src/probe.rs`: which manifest is read, and what is made of it
- `app/`: the plugin's metadata and hook, and reading files through the host

Public proof functions whose names begin with `law_` state what holds of the
library as a whole: a model is always a JSON document that can be read in one
way only, the first manifest that can be read decides, identifiers are never
empty, and more.
