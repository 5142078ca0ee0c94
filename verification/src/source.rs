//! Where the terminal interface gets its data from.
use crate::api::ApiClient;
use crate::config::{Config, TuiSource};
use crate::text;
use vstd::prelude::*;

verus! {

/// A source of data: a history on this machine, or a service.
#[derive(Debug)]
pub enum TuiDataSource {
    Sqlite { db_path: String },
    Http { api: ApiClient },
}

/// The source that the settings ask for.
pub fn build_tui_data_source(config: &Config) -> (source: TuiDataSource)
    ensures
        match config.deep_view().tui.source {
            TuiSource::LocalSqlite => source matches TuiDataSource::Sqlite { db_path } && db_path@
                == config.deep_view().tui.database_path,
            TuiSource::RemoteApi => source matches TuiDataSource::Http { api }
                && api.base_url@ == text::without_tail(config.deep_view().tui.api_base_url, '/'),
        },
{
    match config.tui.source {
        TuiSource::LocalSqlite => TuiDataSource::Sqlite {
            db_path: config.tui.database_path.clone(),
        },
        TuiSource::RemoteApi => TuiDataSource::Http {
            api: ApiClient::new(config.tui.api_base_url.as_str()),
        },
    }
}

}
