use coletor_imagem_radar::config::DatabaseConfig;
use coletor_imagem_radar::momento::Momento;
use coletor_imagem_radar::raio::Flash;
use coletor_imagem_radar::state::{
    cache_key, chaves_a_hidratar, corte_hidratacao, ddl_statements, ddl_statements_raios,
    hidrata, linha_do_arquivo, linhas_dos_flashes, marca_apos_insert, validated_schema,
    FrameRecord, Processado, ResultadoInsert,
};

fn banco(schema: &str) -> DatabaseConfig {
    DatabaseConfig {
        host: "h".into(),
        port: 5432,
        user: "u".into(),
        password: "p".into(),
        dbname: "d".into(),
        schema: schema.into(),
        sslmode: None,
    }
}

fn agora() -> Momento {
    Momento {
        nanos: 1_780_660_800_000_000_000,
        deslocamento: 0,
    }
}

#[test]
fn chave_do_cache_separa_fonte_e_objeto() {
    assert_eq!(cache_key("noaa-goes-19", "a/b.nc"), "noaa-goes-19\u{0}a/b.nc");
    assert_ne!(cache_key("ab", "c"), cache_key("a", "bc"));
}

fn processado(chave: &str, horas_atras: i128) -> Processado {
    Processado {
        fonte: "f".to_string(),
        chave_origem: chave.to_string(),
        processado_em: Momento {
            nanos: agora().nanos - horas_atras * 3_600_000_000_000,
            deslocamento: 0,
        },
    }
}

#[test]
fn hidratacao_junta_os_recentes_dos_dois_catalogos() {
    let frames = vec![processado("a", 1), processado("velho", 49), processado("b", 47)];
    let arquivos = vec![processado("no_corte", 48), processado("c", 0)];
    assert_eq!(
        chaves_a_hidratar(&frames, &arquivos, agora()),
        vec!["f\u{0}a", "f\u{0}b", "f\u{0}c"]
    );
}

#[test]
fn hidratacao_e_estrita_no_corte() {
    let corte = corte_hidratacao(agora());
    assert!(!hidrata(corte, agora()));
    let depois = Momento {
        nanos: corte.nanos + 1,
        deslocamento: 0,
    };
    assert!(hidrata(depois, agora()));
}

#[test]
fn hidratacao_recua_48_horas() {
    let c = corte_hidratacao(agora());
    assert_eq!(agora().nanos - c.nanos, 48 * 3600 * 1_000_000_000);
    assert_eq!(c.deslocamento, 0);
}

#[test]
fn so_marca_o_que_esta_no_catalogo() {
    assert!(marca_apos_insert(&ResultadoInsert::Inserida));
    assert!(marca_apos_insert(&ResultadoInsert::JaExistia));
    assert!(!marca_apos_insert(&ResultadoInsert::Falhou));
}

#[test]
fn schema_simples_passa() {
    assert_eq!(
        validated_schema(&banco("imagens_satelite")).unwrap(),
        "imagens_satelite"
    );
    assert_eq!(validated_schema(&banco("_x9")).unwrap(), "_x9");
}

#[test]
fn schema_perigoso_e_recusado() {
    for s in ["", "9a", "Abc", "a-b", "a\"b", "a'; drop", "á", "a b"] {
        let e = validated_schema(&banco(s)).unwrap_err();
        assert_eq!(
            e.mensagem(),
            format!("database.schema inválido '{s}': use só [a-z0-9_], começando por letra minúscula ou '_'")
        );
    }
}

#[test]
fn ddl_dos_frames() {
    let schema = "imagens";
    let r = ddl_statements(schema);
    assert_eq!(r.len(), 3);
    assert_eq!(
        r[0],
        format!(
            "CREATE TABLE IF NOT EXISTS \"{schema}\".frames (\n\
             \x20   fonte          text        NOT NULL,\n\
             \x20   produto        text        NOT NULL,\n\
             \x20   canal          text,\n\
             \x20   chave_origem   text        NOT NULL,\n\
             \x20   chave_destino  text        NOT NULL,\n\
             \x20   tamanho_bytes  bigint      NOT NULL,\n\
             \x20   inicio         timestamptz NOT NULL,\n\
             \x20   fim            timestamptz,\n\
             \x20   processado_em  timestamptz NOT NULL DEFAULT now(),\n\
             \x20   PRIMARY KEY (fonte, chave_origem, inicio)\n\
             )"
        )
    );
    assert_eq!(
        r[1],
        "SELECT public.create_hypertable('imagens.frames', 'inicio', if_not_exists => TRUE)"
    );
    assert_eq!(
        r[2],
        "CREATE INDEX IF NOT EXISTS frames_produto_inicio_idx ON \"imagens\".frames (produto, inicio DESC)"
    );
}

#[test]
fn ddl_dos_raios() {
    let r = ddl_statements_raios("imagens");
    assert_eq!(r.len(), 5);
    assert!(r[0].starts_with("CREATE TABLE IF NOT EXISTS \"imagens\".raios (\n"));
    assert_eq!(
        r[1],
        "SELECT public.create_hypertable('imagens.raios', 'tempo', if_not_exists => TRUE)"
    );
    assert_eq!(
        r[2],
        "CREATE INDEX IF NOT EXISTS raios_tempo_idx ON \"imagens\".raios (tempo DESC)"
    );
    assert!(r[3].contains("\"imagens\".raios_arquivos"));
}

#[test]
fn todo_ddl_e_idempotente() {
    for s in ddl_statements("x").iter().chain(ddl_statements_raios("x").iter()) {
        assert!(s.contains("IF NOT EXISTS") || s.contains("if_not_exists => TRUE"));
    }
}

#[test]
fn linhas_de_um_arquivo_de_raios() {
    let flashes = vec![Flash {
        flash_id: 7,
        tempo: agora(),
        lat: -23.5,
        lon: -46.6,
        energia: Some(1e-15),
        area: None,
        qualidade: 3,
    }];
    let r = linhas_dos_flashes("noaa-goes-19", "k.nc", &flashes);
    assert_eq!(r.len(), 1);
    assert_eq!(r[0].fonte, "noaa-goes-19");
    assert_eq!(r[0].chave_origem, "k.nc");
    assert_eq!(r[0].flash_id, 7);
    assert_eq!(r[0].tempo, agora());
    assert_eq!((r[0].lat, r[0].lon), (-23.5, -46.6));
    assert_eq!((r[0].energia, r[0].area), (Some(1e-15), None));
    assert_eq!(r[0].qualidade, 3);
    let a = linha_do_arquivo("noaa-goes-19", "k.nc", agora(), &flashes);
    assert_eq!(a.chave_origem, "k.nc");
    assert_eq!(a.inicio, agora());
    assert_eq!(a.qtd_flashes, 1);
    assert_eq!(a.processado_em, None);
}

#[test]
fn arquivo_sem_flash_entra_no_livro_razao() {
    let flashes: Vec<Flash<f64>> = vec![];
    assert!(linhas_dos_flashes("f", "k", &flashes).is_empty());
    assert_eq!(linha_do_arquivo("f", "k", agora(), &flashes).qtd_flashes, 0);
}

/// Uma tabela com a chave primária de `frames`, cujo insert ignora o conflito.
fn insere(tabela: &mut Vec<(String, String, i128, String)>, rec: &FrameRecord) -> ResultadoInsert {
    let chave = (&rec.fonte, &rec.chave_origem, rec.inicio.nanos);
    if tabela.iter().any(|l| (&l.0, &l.1, l.2) == chave) {
        return ResultadoInsert::JaExistia;
    }
    tabela.push((
        rec.fonte.clone(),
        rec.chave_origem.clone(),
        rec.inicio.nanos,
        rec.chave_destino.clone(),
    ));
    ResultadoInsert::Inserida
}

#[test]
fn catalogar_de_novo_nao_muda_nada() {
    let mut rec = FrameRecord {
        fonte: "noaa-goes-19".to_string(),
        produto: "abi-l2-cmipf-c13".to_string(),
        canal: Some("C13".to_string()),
        chave_origem: "a.nc".to_string(),
        chave_destino: "a.pmtiles".to_string(),
        tamanho_bytes: 10,
        inicio: agora(),
        fim: None,
    };
    let mut tabela = Vec::new();
    let mut cache = std::collections::BTreeSet::new();
    for destino in ["a.pmtiles", "outro.pmtiles"] {
        rec.chave_destino = destino.to_string();
        let res = insere(&mut tabela, &rec);
        assert!(marca_apos_insert(&res));
        cache.insert(cache_key(&rec.fonte, &rec.chave_origem));
        assert_eq!(tabela.len(), 1);
        assert_eq!(tabela[0].3, "a.pmtiles");
        assert_eq!(cache.len(), 1);
    }
    rec.chave_origem = "b.nc".to_string();
    assert!(matches!(insere(&mut tabela, &rec), ResultadoInsert::Inserida));
    assert_eq!(tabela.len(), 2);
}
