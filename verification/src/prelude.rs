//! The items that most users of the library need, under one path.

pub use crate::commands::auth;
pub use crate::humble_api::{ApiError, HumbleApi};
pub use crate::models::{
    Bundle, BundleDetails, ChoicePeriod, ClaimStatus, ContentChoiceData, ContentChoiceOptions,
    DownloadInfo, DownloadUrl, GameData, GameKey, HumbleChoice, KeyEntry, KeyList, MatchMode,
    Product, ProductDownload, ProductKey, Timestamp, Tpkd,
};
pub use crate::util::byte_string_to_number;
