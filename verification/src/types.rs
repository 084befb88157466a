//! The values that the library's operations take and give: requests, skill
//! listings, market results and import reports.
use vstd::prelude::*;

verus! {

#[derive(Debug)]
pub struct RemoteSkillView {
    pub id: String,
    pub name: String,
    pub namespace: String,
    pub source_url: String,
    pub description: String,
    pub detail_url: String,
    pub description_zh: String,
    pub author: String,
    pub installs: u64,
    pub stars: u64,
    pub market_id: String,
    pub market_label: String,
}

#[derive(Debug)]
pub struct RemoteSkillsViewResponse {
    pub skills: Vec<RemoteSkillView>,
    pub total: u64,
    pub limit: u64,
    pub offset: u64,
    pub has_next: bool,
    pub daily_remaining: Option<u64>,
}

#[derive(Debug)]
pub struct LinkTarget {
    pub name: String,
    pub path: String,
}

#[derive(Debug)]
pub struct InstallResult {
    pub installed_path: String,
    pub linked: Vec<String>,
    pub skipped: Vec<String>,
}

#[derive(Debug)]
pub struct DownloadRequest {
    pub source_url: String,
    pub skill_name: String,
    pub install_base_dir: String,
    pub skill_uuid: Option<String>,
    pub target_path: Option<String>,
}

#[derive(Debug)]
pub struct DownloadResult {
    pub installed_path: String,
}

#[derive(Debug)]
pub struct LinkRequest {
    pub skill_path: String,
    pub skill_name: String,
    pub link_targets: Vec<LinkTarget>,
    pub project_dir: Option<String>,
}

#[derive(Debug)]
pub struct LocalSkill {
    pub id: String,
    pub uuid: String,
    pub name: String,
    pub description: String,
    pub path: String,
    pub source: String,
    pub source_url: Option<String>,
    pub ide: Option<String>,
    pub used_by: Vec<String>,
}

#[derive(Debug)]
pub struct LocalSkillPreview {
    pub skill_md_path: String,
    pub skill_md_content: String,
    pub display_description: Option<String>,
    pub translation_status: String,
}

#[derive(Debug)]
pub struct LocalScanRequest {
    pub project_dir: Option<String>,
    pub ide_dirs: Vec<IdeDir>,
}

#[derive(Debug)]
pub struct IdeSkill {
    pub id: String,
    pub name: String,
    pub path: String,
    pub ide: String,
    pub source: String,
    pub managed: bool,
}

#[derive(Debug)]
pub struct Overview {
    pub manager_skills: Vec<LocalSkill>,
    pub ide_skills: Vec<IdeSkill>,
}

#[derive(Debug)]
pub struct UninstallRequest {
    pub target_path: String,
    pub project_dir: Option<String>,
    pub ide_dirs: Vec<IdeDir>,
}

#[derive(Debug)]
pub struct IdeDir {
    pub label: String,
    pub relative_dir: String,
}

#[derive(Debug)]
pub struct ImportRequest {
    pub source_path: String,
}

#[derive(Debug)]
pub struct SaveLocalSkillRequest {
    pub skill_path: String,
    pub expected_content: String,
    pub content: String,
}

#[derive(Debug)]
pub struct SkillDiscoveryRequest {
    pub root_path: String,
}

#[derive(Debug)]
pub struct DiscoveredSkill {
    pub id: String,
    pub uuid: Option<String>,
    pub name: String,
    pub description: String,
    pub path: String,
    pub skill_md_path: String,
    pub provider: String,
    pub is_standard: bool,
    pub is_duplicate: bool,
    pub issues: Vec<String>,
}

#[derive(Debug)]
pub struct ManagerStorageInfo {
    pub root_path: String,
    pub skills_path: String,
    pub plugins_path: String,
    pub legacy_skills_path: String,
    pub legacy_exists: bool,
}

#[derive(Debug)]
pub struct BatchImportRequest {
    pub source_paths: Vec<String>,
}

#[derive(Debug)]
pub struct SkillImportItemResult {
    pub source_path: String,
    pub name: String,
    pub target_path: Option<String>,
    pub status: String,
    pub message: String,
}

#[derive(Debug)]
pub struct BatchImportResult {
    pub items: Vec<SkillImportItemResult>,
    pub imported: usize,
    pub skipped: usize,
    pub failed: usize,
}

#[derive(Debug)]
pub struct DeleteLocalSkillRequest {
    pub target_paths: Vec<String>,
}

#[derive(Debug)]
pub struct ExportSkillsRequest {
    pub target_paths: Vec<String>,
    pub export_path: String,
}

#[derive(Debug)]
pub struct AdoptIdeSkillRequest {
    pub target_path: String,
    pub ide_label: String,
}

#[derive(Debug)]
pub struct ProjectScanRequest {
    pub project_dir: String,
}

#[derive(Debug)]
pub struct ProjectIdeDir {
    pub label: String,
    pub relative_dir: String,
    pub absolute_path: String,
}

#[derive(Debug)]
pub struct ProjectScanResult {
    pub project_dir: String,
    pub detected_ide_dirs: Vec<ProjectIdeDir>,
}

} // verus!
