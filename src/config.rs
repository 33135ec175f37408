//! Settings and their defaults. Reading and writing settings files is left to
//! the caller.
use vstd::prelude::*;

verus! {

#[derive(Clone, Debug)]
pub struct GeneralConfig {
    pub default_log_path: Option<String>,
    pub max_file_size: Option<usize>,
    pub verbose: bool,
    pub timezone: Option<String>,
}

#[derive(Clone, Debug)]
pub struct FilterConfig {
    pub default_level: Option<String>,
    pub exclude_patterns: Vec<String>,
    pub include_patterns: Vec<String>,
    pub max_age_days: Option<u32>,
}

#[derive(Clone, Debug)]
pub struct ExportConfig {
    pub default_format: String,
    pub output_directory: Option<String>,
    pub max_batch_size: usize,
    pub compress: bool,
}

/// Analysis settings. The anomaly threshold, in standard deviations, is the
/// fraction `anomaly_threshold_num / anomaly_threshold_den`.
#[derive(Clone, Copy, Debug)]
pub struct AnalysisConfig {
    pub time_window_minutes: u32,
    pub min_pattern_occurrences: usize,
    pub anomaly_threshold_num: u64,
    pub anomaly_threshold_den: u64,
    pub max_patterns: usize,
}

#[derive(Clone, Debug)]
pub struct LogifyConfig {
    pub general: GeneralConfig,
    pub filter: FilterConfig,
    pub export: ExportConfig,
    pub analysis: AnalysisConfig,
}

/// The largest file size by default: 100 MiB.
pub const DEFAULT_MAX_FILE_SIZE: usize = 104857600;

impl Default for GeneralConfig {
    fn default() -> (r: GeneralConfig)
        ensures
            r.default_log_path is None,
            r.max_file_size == Some(DEFAULT_MAX_FILE_SIZE),
            !r.verbose,
            r.timezone matches Some(t) && t@ == "UTC"@,
    {
        GeneralConfig {
            default_log_path: None,
            max_file_size: Some(DEFAULT_MAX_FILE_SIZE),
            verbose: false,
            timezone: Some("UTC".to_owned()),
        }
    }
}

impl Default for FilterConfig {
    fn default() -> (r: FilterConfig)
        ensures
            r.default_level matches Some(l) && l@ == "info"@,
            r.exclude_patterns@.len() == 0,
            r.include_patterns@.len() == 0,
            r.max_age_days == Some(30u32),
    {
        FilterConfig {
            default_level: Some("info".to_owned()),
            exclude_patterns: Vec::new(),
            include_patterns: Vec::new(),
            max_age_days: Some(30),
        }
    }
}

impl Default for ExportConfig {
    fn default() -> (r: ExportConfig)
        ensures
            r.default_format@ == "json"@,
            r.output_directory is None,
            r.max_batch_size == 1000,
            !r.compress,
    {
        ExportConfig {
            default_format: "json".to_owned(),
            output_directory: None,
            max_batch_size: 1000,
            compress: false,
        }
    }
}

impl Default for AnalysisConfig {
    fn default() -> (r: AnalysisConfig)
        ensures
            r.time_window_minutes == 60,
            r.min_pattern_occurrences == 5,
            r.anomaly_threshold_num == 2,
            r.anomaly_threshold_den == 1,
            r.max_patterns == 100,
    {
        AnalysisConfig {
            time_window_minutes: 60,
            min_pattern_occurrences: 5,
            anomaly_threshold_num: 2,
            anomaly_threshold_den: 1,
            max_patterns: 100,
        }
    }
}

impl Default for LogifyConfig {
    fn default() -> (r: LogifyConfig)
        ensures
            r.general.default_log_path is None,
            r.general.max_file_size == Some(DEFAULT_MAX_FILE_SIZE),
            !r.general.verbose,
            r.filter.exclude_patterns@.len() == 0,
            r.filter.include_patterns@.len() == 0,
            r.export.default_format@ == "json"@,
            r.export.max_batch_size == 1000,
            r.analysis.time_window_minutes == 60,
            r.analysis.min_pattern_occurrences == 5,
            r.analysis.anomaly_threshold_num == 2,
            r.analysis.anomaly_threshold_den == 1,
            r.analysis.max_patterns == 100,
    {
        LogifyConfig {
            general: GeneralConfig::default(),
            filter: FilterConfig::default(),
            export: ExportConfig::default(),
            analysis: AnalysisConfig::default(),
        }
    }
}

/// `Some` values of `other` replace those of `base`.
pub open spec fn overridden<T>(base: Option<T>, other: Option<T>) -> Option<T> {
    match other {
        Some(v) => Some(v),
        None => base,
    }
}

impl LogifyConfig {
    pub fn new() -> (r: LogifyConfig)
        ensures
            r.export.default_format@ == "json"@,
            r.analysis.time_window_minutes == 60,
            r.analysis.min_pattern_occurrences == 5,
    {
        LogifyConfig::default()
    }

    /// Lays `other` over this configuration: its present optional values
    /// replace these, its pattern lists are appended to these, and its plain
    /// values and its whole analysis section replace these.
    pub fn merge(&mut self, other: LogifyConfig)
        ensures
            final(self).general.default_log_path == overridden(
                old(self).general.default_log_path,
                other.general.default_log_path,
            ),
            final(self).general.max_file_size == overridden(
                old(self).general.max_file_size,
                other.general.max_file_size,
            ),
            final(self).general.verbose == other.general.verbose,
            final(self).general.timezone == overridden(old(self).general.timezone, other.general.timezone),
            final(self).filter.default_level == overridden(
                old(self).filter.default_level,
                other.filter.default_level,
            ),
            final(self).filter.exclude_patterns@ == old(self).filter.exclude_patterns@
                + other.filter.exclude_patterns@,
            final(self).filter.include_patterns@ == old(self).filter.include_patterns@
                + other.filter.include_patterns@,
            final(self).filter.max_age_days == overridden(
                old(self).filter.max_age_days,
                other.filter.max_age_days,
            ),
            final(self).export.default_format == other.export.default_format,
            final(self).export.output_directory == overridden(
                old(self).export.output_directory,
                other.export.output_directory,
            ),
            final(self).export.max_batch_size == other.export.max_batch_size,
            final(self).export.compress == other.export.compress,
            final(self).analysis == other.analysis,
    {
        let mut other = other;
        if let Some(path) = other.general.default_log_path {
            self.general.default_log_path = Some(path);
        }
        if let Some(size) = other.general.max_file_size {
            self.general.max_file_size = Some(size);
        }
        self.general.verbose = other.general.verbose;
        if let Some(tz) = other.general.timezone {
            self.general.timezone = Some(tz);
        }
        if let Some(level) = other.filter.default_level {
            self.filter.default_level = Some(level);
        }
        self.filter.exclude_patterns.append(&mut other.filter.exclude_patterns);
        self.filter.include_patterns.append(&mut other.filter.include_patterns);
        if let Some(age) = other.filter.max_age_days {
            self.filter.max_age_days = Some(age);
        }
        self.export.default_format = other.export.default_format;
        if let Some(dir) = other.export.output_directory {
            self.export.output_directory = Some(dir);
        }
        self.export.max_batch_size = other.export.max_batch_size;
        self.export.compress = other.export.compress;
        self.analysis = other.analysis;
    }
}

} // verus!
