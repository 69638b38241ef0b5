//! Workspace layout: where the configuration file, the build output and
//! the compiled artifacts live, all relative to one workspace root.

use vstd::prelude::*;
use vstd::string::StringExecFns;

use crate::error::{DeployError, DeployErrorV};

verus! {

/// Ghost mirror of [`WorkspaceSettings`].
#[verifier::ext_equal]
pub struct WorkspaceSettingsV {
    pub workspace_root: Seq<char>,
    pub config_path: Seq<char>,
    pub target_dir: Seq<char>,
    pub deployment_dir: Seq<char>,
    pub artifacts_dir: Seq<char>,
}

/// The paths one workspace keeps its deployment state and artifacts
/// under. Built from an absolute workspace root with conventional
/// defaults; each path can then be overridden individually.
#[derive(Clone, Debug, PartialEq)]
pub struct WorkspaceSettings {
    /// Must be an absolute path.
    pub workspace_root: String,
    pub config_path: String,
    pub target_dir: String,
    pub deployment_dir: String,
    pub artifacts_dir: String,
}

impl DeepView for WorkspaceSettings {
    type V = WorkspaceSettingsV;

    open spec fn deep_view(&self) -> WorkspaceSettingsV {
        WorkspaceSettingsV {
            workspace_root: self.workspace_root@,
            config_path: self.config_path@,
            target_dir: self.target_dir@,
            deployment_dir: self.deployment_dir@,
            artifacts_dir: self.artifacts_dir@,
        }
    }
}

impl WorkspaceSettings {
    /// The conventional layout under an absolute workspace root; a
    /// relative root is rejected.
    pub fn new(workspace_root: String) -> (r: Result<WorkspaceSettings, DeployError>)
        ensures
            (workspace_root@.len() > 0 && workspace_root@[0] == '/') ==> (r matches Ok(s)
                && s.deep_view() == (WorkspaceSettingsV {
                workspace_root: workspace_root@,
                config_path: workspace_root@ + "/.wasm-deploy/config.json"@,
                target_dir: workspace_root@ + "/target"@,
                deployment_dir: workspace_root@ + "/deployment"@,
                artifacts_dir: workspace_root@ + "/artifacts"@,
            })),
            !(workspace_root@.len() > 0 && workspace_root@[0] == '/') ==> (r matches Err(e)
                && e.deep_view() matches DeployErrorV::Generic(_)),
    {
        let root: &str = workspace_root.as_str();
        if root.unicode_len() == 0 {
            return Err(DeployError::Generic(String::from_str(
                "workspace root must be an absolute path",
            )));
        }
        let c: char = root.get_char(0);
        if c != '/' {
            return Err(DeployError::Generic(String::from_str(
                "workspace root must be an absolute path",
            )));
        }
        let config_path = workspace_root.clone().concat("/.wasm-deploy/config.json");
        let target_dir = workspace_root.clone().concat("/target");
        let deployment_dir = workspace_root.clone().concat("/deployment");
        let artifacts_dir = workspace_root.clone().concat("/artifacts");
        Ok(
            WorkspaceSettings {
                workspace_root,
                config_path,
                target_dir,
                deployment_dir,
                artifacts_dir,
            },
        )
    }

    /// Use a different configuration file.
    pub fn set_config_path(self, config_path: String) -> (r: WorkspaceSettings)
        ensures
            r.deep_view() == (WorkspaceSettingsV {
                config_path: config_path@,
                ..self.deep_view()
            }),
    {
        WorkspaceSettings { config_path, ..self }
    }

    /// Use a different build directory.
    pub fn set_build_dir(self, target_dir: String) -> (r: WorkspaceSettings)
        ensures
            r.deep_view() == (WorkspaceSettingsV { target_dir: target_dir@, ..self.deep_view() }),
    {
        WorkspaceSettings { target_dir, ..self }
    }

    /// Use a different deployment crate directory.
    pub fn set_deployment_dir(self, deployment_dir: String) -> (r: WorkspaceSettings)
        ensures
            r.deep_view() == (WorkspaceSettingsV {
                deployment_dir: deployment_dir@,
                ..self.deep_view()
            }),
    {
        WorkspaceSettings { deployment_dir, ..self }
    }

    /// Use a different artifacts directory.
    pub fn set_artifacts_dir(self, artifacts_dir: String) -> (r: WorkspaceSettings)
        ensures
            r.deep_view() == (WorkspaceSettingsV {
                artifacts_dir: artifacts_dir@,
                ..self.deep_view()
            }),
    {
        WorkspaceSettings { artifacts_dir, ..self }
    }
}

} // verus!
