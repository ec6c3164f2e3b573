# coletor_imagem_radar

Coleta produtos GOES-19 do **NOAA NODD** (`noaa-goes19`, S3 público, leitura anônima):
o ABI C13 vira **PMTiles** no nosso S3 e o GLM-L2-LCFA vira **pontos** (flashes) no
Postgres. Um catálogo gRPC serve os dois, e um visor desenha os raios num mapa.

A biblioteca (`src/`) guarda as regras, com contratos provados por Verus; o executável
(`app/`) faz a I/O: lista, baixa, roda GDAL, grava e serve o que a biblioteca decide.

## A biblioteca

| Módulo | O que diz |
|--------|-----------|
| `config` | A configuração, os padrões, a validação e a URL do Postgres. |
| `nodd` | As chaves do NODD: prefixo da hora, chave de destino, tempos do nome. |
| `momento` | Instantes e calendário, sobre o crate `time`. |
| `pipeline` | O loop de ingest: janela, chaves novas, rodada de produtos, cauda de um objeto. |
| `process` | Os comandos que fazem de um `.nc` do C13 um PMTiles. |
| `glm` | Das variáveis de um LCFA aos flashes clipados. |
| `state` | O cache de dedupe, o schema, o DDL e o que se grava. |
| `entity`, `raio` | As linhas do catálogo. |
| `query` | As consultas e a paginação por cursor. |
| `serve` | O servidor do catálogo: pedidos, recusas, respostas e cursores. |
| `storage` | O destino dos tiles e o caminho dos objetos no bucket. |
| `visor` | O JSON do mapa. |
| `logging` | O formato dos logs. |
| `texto`, `ordem` | Textos, números escritos e a ordem das chaves. |

As leis são as funções de prova `lei_*`, cada uma ao lado do que descreve.

O que a biblioteca toma sem prova está à vista: os contratos das chamadas ao crate `time`
(em `momento`), de `object_store::path::Path::from` (em `storage`) e de `String::push`
(em `texto`).

## Uso

```sh
coletor-imagem-radar catalogo migrate               # DDL: frames + raios + raios_arquivos
coletor-imagem-radar coletor-c13 check              # valida config + lista a origem
coletor-imagem-radar coletor-c13 run --once --limit 1
coletor-imagem-radar coletor-glm run --once --limit 1
coletor-imagem-radar catalogo serve                 # gRPC
coletor-imagem-radar visor-raios --minutos 180      # mapa
```

As credenciais do destino S3 vêm do ambiente (`AWS_*`); as do Postgres, da seção
`[database]` do TOML. Logs: `RUST_LOG` e `SYNC_LOG_FORMAT=json`.
